//! Reading the organizer's three text fields into a proposed signup.
use vstd::prelude::*;
use crate::clock::{Date, TimeOfDay, date_of_text, time_of_text, read_date, read_time};
use crate::model::proposal_times;

verus! {

/// The fields of `s` separated by commas; text without a comma is one field.
pub open spec fn split_commas(s: Seq<char>) -> Seq<Seq<char>>
    decreases s.len(),
{
    if s.len() == 0 {
        seq![Seq::<char>::empty()]
    } else {
        let init = split_commas(s.drop_last());
        if s.last() == ',' {
            init.push(Seq::<char>::empty())
        } else {
            init.update(init.len() - 1, init.last().push(s.last()))
        }
    }
}

/// The texts of a sequence of string slices.
pub open spec fn texts(v: Seq<&str>) -> Seq<Seq<char>> {
    v.map_values(|t: &str| t@)
}

/// Splits `s` at every comma, keeping the fields as typed.
pub fn split_fields<'a>(s: &'a str) -> (r: Vec<&'a str>)
    ensures
        texts(r@) == split_commas(s@),
{
    let n = s.unicode_len();
    let mut out: Vec<&'a str> = Vec::new();
    let mut start: usize = 0;
    let mut i: usize = 0;
    assert(s@.subrange(0, 0) =~= Seq::<char>::empty());
    assert(texts(out@).push(s@.subrange(0, 0)) =~= seq![Seq::<char>::empty()]);
    while i < n
        invariant
            n == s@.len(),
            start <= i <= n,
            split_commas(s@.subrange(0, i as int)) == texts(out@).push(
                s@.subrange(start as int, i as int),
            ),
        decreases n - i,
    {
        let c = s.get_char(i);
        let ghost pre = s@.subrange(0, i as int);
        let ghost next = s@.subrange(0, i + 1);
        assert(next.drop_last() =~= pre);
        assert(next.last() == c);
        if c == ',' {
            let ghost before = texts(out@);
            let field = s.substring_char(start, i);
            out.push(field);
            start = i + 1;
            assert(texts(out@) =~= before.push(field@));
            assert(s@.subrange(start as int, i + 1) =~= Seq::<char>::empty());
            assert(split_commas(next) =~= texts(out@).push(s@.subrange(start as int, i + 1)));
        } else {
            let ghost init = split_commas(pre);
            assert(init.last() == s@.subrange(start as int, i as int));
            assert(init.last().push(c) =~= s@.subrange(start as int, i + 1));
            assert(split_commas(next) =~= texts(out@).push(s@.subrange(start as int, i + 1)));
        }
        i = i + 1;
    }
    let last = s.substring_char(start, n);
    out.push(last);
    assert(s@.subrange(0, n as int) =~= s@);
    assert(texts(out@) =~= split_commas(s@));
    out
}

/// Why the organizer's input was rejected.
#[derive(Clone, Debug, PartialEq, Eq)]
pub enum ValidationError {
    /// The date text, which is not a calendar date.
    BadDate(String),
    /// The first time token that is not a time of day.
    BadTime(String),
    /// The number of opponent fields and of time fields differ.
    CountMismatch { opponents: usize, times: usize },
    /// The first time token whose time an earlier token already gave.
    DuplicateTime(String),
}

/// A validated proposal: its date and, in the order typed, each game's time
/// paired with its opponent's name.
#[derive(Clone, Debug)]
pub struct ProposedSignup {
    pub date: Date,
    pub pairs: Vec<(TimeOfDay, String)>,
}

/// The times read from tokens that all parse.
pub open spec fn parsed_times(toks: Seq<Seq<char>>) -> Seq<TimeOfDay> {
    toks.map_values(|t: Seq<char>| time_of_text(t)->Some_0)
}

/// The first `k` tokens all read as times of day.
pub open spec fn all_parse(toks: Seq<Seq<char>>, k: int) -> bool {
    forall|j: int| 0 <= j < k ==> (#[trigger] time_of_text(toks[j])) is Some
}

/// The time at position `j` already occurs before it.
pub open spec fn has_earlier_twin(ts: Seq<TimeOfDay>, j: int) -> bool {
    exists|i: int| 0 <= i < j && ts[i] == ts[j]
}

/// The times are pairwise distinct.
pub open spec fn times_distinct(ts: Seq<TimeOfDay>) -> bool {
    forall|j: int| 0 <= j < ts.len() ==> !#[trigger] has_earlier_twin(ts, j)
}

/// The three fields make a valid proposal.
pub open spec fn parse_succeeds(date: Seq<char>, opponents: Seq<char>, times: Seq<char>) -> bool {
    let toks = split_commas(times);
    &&& date_of_text(date) is Some
    &&& all_parse(toks, toks.len() as int)
    &&& split_commas(opponents).len() == toks.len()
    &&& times_distinct(parsed_times(toks))
}

/// Reads a proposal from the date text, the comma-separated opponent names
/// and the comma-separated kickoff times; the opponent and the time at the same
/// position form one game.
pub fn parse(date: &str, opponents: &str, times: &str) -> (r: Result<ProposedSignup, ValidationError>)
    ensures
        ({
            let toks = split_commas(times@);
            let opps = split_commas(opponents@);
            let ts = parsed_times(toks);
            &&& (r is Ok <==> parse_succeeds(date@, opponents@, times@))
            &&& (date_of_text(date@) is Some && all_parse(toks, toks.len() as int) && opps.len()
                != toks.len()) ==> r == Err::<ProposedSignup, ValidationError>(
                ValidationError::CountMismatch { opponents: opps.len() as usize, times: toks.len() as usize },
            )
            &&& match r {
                Ok(p) => {
                    &&& p.date == date_of_text(date@)->Some_0
                    &&& p.wf()
                    &&& p.pairs@.len() == toks.len()
                    &&& p.pairs@.len() == opps.len()
                    &&& forall|i: int|
                        0 <= i < p.pairs@.len() ==> {
                            &&& (#[trigger] p.pairs@[i]).0 == ts[i]
                            &&& p.pairs@[i].0.wf()
                            &&& p.pairs@[i].0.whole_minute()
                            &&& p.pairs@[i].1@ == opps[i]
                        }
                },
                Err(ValidationError::BadDate(x)) => x@ == date@ && date_of_text(date@) is None,
                Err(ValidationError::BadTime(x)) => {
                    &&& date_of_text(date@) is Some
                    &&& exists|k: int|
                        0 <= k < toks.len() && all_parse(toks, k) && time_of_text(toks[k]) is None
                            && x@ == #[trigger] toks[k]
                },
                Err(ValidationError::CountMismatch { opponents: a, times: b }) => {
                    &&& date_of_text(date@) is Some
                    &&& all_parse(toks, toks.len() as int)
                    &&& a == opps.len()
                    &&& b == toks.len()
                    &&& a != b
                },
                Err(ValidationError::DuplicateTime(x)) => {
                    &&& date_of_text(date@) is Some
                    &&& all_parse(toks, toks.len() as int)
                    &&& opps.len() == toks.len()
                    &&& exists|j: int|
                        0 <= j < toks.len() && has_earlier_twin(ts, j) && (forall|m: int|
                            0 <= m < j ==> !#[trigger] has_earlier_twin(ts, m)) && x@
                            == #[trigger] toks[j]
                },
            }
        }),
{
    let d = match read_date(date) {
        Some(d) => d,
        None => {
            return Err(ValidationError::BadDate(date.to_owned()));
        },
    };
    let toks = split_fields(times);
    let ghost tk = split_commas(times@);
    let mut ts: Vec<TimeOfDay> = Vec::new();
    let mut k: usize = 0;
    while k < toks.len()
        invariant
            texts(toks@) == tk,
            tk == split_commas(times@),
            date_of_text(date@) == Some(d),
            k <= toks@.len(),
            ts@.len() == k,
            all_parse(tk, k as int),
            forall|j: int|
                0 <= j < k ==> #[trigger] ts@[j] == time_of_text(tk[j])->Some_0 && ts@[j].wf()
                    && ts@[j].whole_minute(),
        decreases toks@.len() - k,
    {
        assert(toks@[k as int]@ == tk[k as int]);
        match read_time(toks[k]) {
            Some(t) => {
                ts.push(t);
            },
            None => {
                assert(time_of_text(tk[k as int]) is None);
                assert(!all_parse(tk, tk.len() as int));
                let x = toks[k].to_owned();
                assert(x@ == tk[k as int] && all_parse(tk, k as int));
                return Err(ValidationError::BadTime(x));
            },
        }
        k = k + 1;
    }
    assert(ts@ =~= parsed_times(tk));
    assert(forall|m: int| 0 <= m < ts@.len() ==> (#[trigger] ts@[m]).wf());
    let opps = split_fields(opponents);
    let r = pair_fields(d, &ts, &toks, &opps);
    proof {
        if r is Err && r->Err_0 is DuplicateTime {
            let x = r->Err_0->DuplicateTime_0;
            let j = choose|j: int|
                0 <= j < ts@.len() && has_earlier_twin(ts@, j) && (forall|m: int|
                    0 <= m < j ==> !#[trigger] has_earlier_twin(ts@, m)) && x@ == #[trigger] texts(
                    toks@,
                )[j];
            assert(x@ == tk[j]);
        }
    }
    r
}

/// Pairs the opponent fields with the times read from the time fields, by
/// position, once the date and every time have been read: the counts must
/// agree and no time may occur twice.
pub fn pair_fields(
    date: Date,
    times: &Vec<TimeOfDay>,
    time_texts: &Vec<&str>,
    opponents: &Vec<&str>,
) -> (r: Result<ProposedSignup, ValidationError>)
    requires
        date.wf(),
        times@.len() == time_texts@.len(),
        forall|i: int| 0 <= i < times@.len() ==> (#[trigger] times@[i]).wf(),
    ensures
        ({
            let ts = times@;
            let os = texts(opponents@);
            &&& (r is Ok <==> os.len() == ts.len() && times_distinct(ts))
            &&& os.len() != ts.len() ==> r == Err::<ProposedSignup, ValidationError>(
                ValidationError::CountMismatch { opponents: os.len() as usize, times: ts.len() as usize },
            )
            &&& match r {
                Ok(p) => {
                    &&& p.date == date
                    &&& p.wf()
                    &&& p.pairs@.len() == ts.len()
                    &&& forall|i: int|
                        0 <= i < p.pairs@.len() ==> (#[trigger] p.pairs@[i]).0 == ts[i]
                            && p.pairs@[i].1@ == os[i]
                },
                Err(ValidationError::CountMismatch { opponents: a, times: b }) => {
                    &&& a == os.len()
                    &&& b == ts.len()
                    &&& a != b
                },
                Err(ValidationError::DuplicateTime(x)) => {
                    &&& os.len() == ts.len()
                    &&& exists|j: int|
                        0 <= j < ts.len() && has_earlier_twin(ts, j) && (forall|m: int|
                            0 <= m < j ==> !#[trigger] has_earlier_twin(ts, m)) && x@
                            == #[trigger] texts(time_texts@)[j]
                },
                Err(_) => false,
            }
        }),
{
    if opponents.len() != times.len() {
        return Err(ValidationError::CountMismatch { opponents: opponents.len(), times: times.len() });
    }
    let mut j: usize = 0;
    while j < times.len()
        invariant
            times@.len() == time_texts@.len(),
            opponents@.len() == times@.len(),
            j <= times@.len(),
            forall|m: int| 0 <= m < j ==> !#[trigger] has_earlier_twin(times@, m),
        decreases times@.len() - j,
    {
        let mut i: usize = 0;
        while i < j
            invariant
                times@.len() == time_texts@.len(),
                opponents@.len() == times@.len(),
                forall|m: int| 0 <= m < j ==> !#[trigger] has_earlier_twin(times@, m),
                j < times@.len(),
                i <= j,
                forall|m: int| 0 <= m < i ==> times@[m] != times@[j as int],
            decreases j - i,
        {
            if times[i] == times[j] {
                assert(has_earlier_twin(times@, j as int));
                let x = time_texts[j].to_owned();
                assert(x@ == texts(time_texts@)[j as int]);
                assert(!times_distinct(times@));
                return Err(ValidationError::DuplicateTime(x));
            }
            i = i + 1;
        }
        j = j + 1;
    }
    let mut pairs: Vec<(TimeOfDay, String)> = Vec::new();
    let mut k: usize = 0;
    while k < times.len()
        invariant
            opponents@.len() == times@.len(),
            forall|m: int| 0 <= m < times@.len() ==> (#[trigger] times@[m]).wf(),
            k <= times@.len(),
            pairs@.len() == k,
            forall|i: int|
                0 <= i < k ==> (#[trigger] pairs@[i]).0 == times@[i] && pairs@[i].1@
                    == texts(opponents@)[i],
        decreases times@.len() - k,
    {
        pairs.push((times[k], opponents[k].to_owned()));
        k = k + 1;
    }
    let r = ProposedSignup { date, pairs };
    assert(proposal_times(r) =~= times@);
    Ok(r)
}


} // verus!
