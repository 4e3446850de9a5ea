use league_signups::clock::{Date, TimeOfDay};
use league_signups::model::{
    assemble, assemble_with_ids, render_summary, ClaimEvent, DbModel, Game, Opponent, Signup,
};
use league_signups::parser::{pair_fields, parse, split_fields, ValidationError};

fn at(h: u32, m: u32) -> TimeOfDay {
    TimeOfDay { secs: h * 3600 + m * 60, nanos: 0 }
}

#[test]
fn split_keeps_fields_as_typed() {
    assert_eq!(split_fields("a,b , c"), vec!["a", "b ", " c"]);
    assert_eq!(split_fields(""), vec![""]);
    assert_eq!(split_fields(","), vec!["", ""]);
    assert_eq!(split_fields("Foxes"), vec!["Foxes"]);
}

#[test]
fn parse_pairs_by_position() {
    let p = parse("2024-05-17", "Foxes,Bears,Owls", "18:00,16:30,20:15").unwrap();
    assert_eq!(p.date, Date { year: 2024, month: 5, day: 17 });
    assert_eq!(p.pairs.len(), 3);
    assert_eq!(p.pairs[0], (at(18, 0), "Foxes".to_string()));
    assert_eq!(p.pairs[1], (at(16, 30), "Bears".to_string()));
    assert_eq!(p.pairs[2], (at(20, 15), "Owls".to_string()));
}

#[test]
fn parse_takes_hours_and_minutes_only() {
    let p = parse("2024-02-29", "Foxes", "09:05").unwrap();
    assert_eq!(p.pairs[0].0, TimeOfDay { secs: 9 * 3600 + 5 * 60, nanos: 0 });
    let e = parse("2024-05-17", "Foxes", "09:05:30").unwrap_err();
    assert_eq!(e, ValidationError::BadTime("09:05:30".to_string()));
}

#[test]
fn parse_rejects_impossible_day() {
    let e = parse("2023-02-29", "Foxes", "18:00").unwrap_err();
    assert_eq!(e, ValidationError::BadDate("2023-02-29".to_string()));
}

#[test]
fn pair_fields_checks_counts_then_duplicates() {
    let d = Date { year: 2024, month: 5, day: 17 };
    let e = pair_fields(d, &vec![at(18, 0)], &vec!["18:00"], &vec!["Foxes", "Bears"]).unwrap_err();
    assert_eq!(e, ValidationError::CountMismatch { opponents: 2, times: 1 });
    let e = pair_fields(d, &vec![at(18, 0), at(18, 0)], &vec!["18:00", "6pm"], &vec!["Foxes", "Bears"])
        .unwrap_err();
    assert_eq!(e, ValidationError::DuplicateTime("6pm".to_string()));
    let p = pair_fields(d, &vec![at(18, 0), at(16, 30)], &vec!["18:00", "16:30"], &vec!["Foxes", "Bears"])
        .unwrap();
    assert_eq!(p.date, d);
    assert_eq!(p.pairs, vec![(at(18, 0), "Foxes".to_string()), (at(16, 30), "Bears".to_string())]);
}

#[test]
fn summary_ignores_input_order() {
    let a = assemble(&parse("2024-05-17", "Foxes,Bears", "18:00,16:30").unwrap());
    let b = assemble(&parse("2024-05-17", "Bears,Foxes", "16:30,18:00").unwrap());
    assert_eq!(render_summary(&a), render_summary(&b));
}

#[test]
fn parse_count_mismatch_reports_both_counts() {
    let e = parse("2024-05-17", "Foxes,Bears,Owls", "18:00,16:30").unwrap_err();
    assert_eq!(e, ValidationError::CountMismatch { opponents: 3, times: 2 });
    let e = parse("2024-05-17", "Foxes", "18:00,16:30").unwrap_err();
    assert_eq!(e, ValidationError::CountMismatch { opponents: 1, times: 2 });
}

#[test]
fn parse_bad_month_is_bad_date() {
    let e = parse("2024-13-01", "Foxes", "18:00").unwrap_err();
    assert_eq!(e, ValidationError::BadDate("2024-13-01".to_string()));
}

#[test]
fn parse_bad_hour_is_bad_time() {
    let e = parse("2024-05-17", "Foxes", "25:61").unwrap_err();
    assert_eq!(e, ValidationError::BadTime("25:61".to_string()));
}

#[test]
fn parse_reports_first_bad_time() {
    let e = parse("2024-05-17", "Foxes,Bears,Owls", "18:00,noon,99:00").unwrap_err();
    assert_eq!(e, ValidationError::BadTime("noon".to_string()));
}

#[test]
fn parse_bad_date_comes_before_bad_time() {
    let e = parse("tomorrow", "Foxes", "25:61").unwrap_err();
    assert_eq!(e, ValidationError::BadDate("tomorrow".to_string()));
}

#[test]
fn parse_bad_time_comes_before_count_mismatch() {
    let e = parse("2024-05-17", "Foxes", "18:00,xx").unwrap_err();
    assert_eq!(e, ValidationError::BadTime("xx".to_string()));
}

#[test]
fn parse_rejects_duplicate_time() {
    let e = parse("2024-05-17", "Foxes,Bears,Owls", "18:00,16:30,18:00").unwrap_err();
    assert_eq!(e, ValidationError::DuplicateTime("18:00".to_string()));
}

#[test]
fn summary_is_in_time_order() {
    let p = parse("2024-05-17", "Foxes,Bears", "18:00,16:30").unwrap();
    let s = assemble(&p);
    assert_eq!(render_summary(&s), "#Gaming time!\n16:30 :: Bears\n18:00 :: Foxes\n");
}

#[test]
fn summary_of_one_game() {
    let p = parse("2024-05-17", "Owls", "07:05").unwrap();
    let s = assemble(&p);
    assert_eq!(render_summary(&s), "#Gaming time!\n07:05 :: Owls\n");
}

#[test]
fn assemble_links_games_to_opponents() {
    let p = parse("2024-05-17", "Foxes,Bears,Owls", "18:00,16:30,20:15").unwrap();
    let s = assemble_with_ids(&p, 7, &vec![10, 11, 12], &vec![20, 21, 22]);
    assert_eq!(s.id, 7);
    assert_eq!(s.date, p.date);
    assert_eq!(
        s.games,
        vec![
            Game { id: 11, signup_id: 7, time: at(16, 30), opponent_id: 21 },
            Game { id: 10, signup_id: 7, time: at(18, 0), opponent_id: 20 },
            Game { id: 12, signup_id: 7, time: at(20, 15), opponent_id: 22 },
        ]
    );
    let names: Vec<(u128, String)> = s.opponents.iter().map(|o: &Opponent| (o.id, o.name.clone())).collect();
    assert_eq!(
        names,
        vec![(21, "Bears".to_string()), (20, "Foxes".to_string()), (22, "Owls".to_string())]
    );
}

#[test]
fn assemble_draws_distinct_ids() {
    let p = parse("2024-05-17", "Foxes,Bears", "18:00,16:30").unwrap();
    let s = assemble(&p);
    assert_ne!(s.games[0].id, s.games[1].id);
    assert_ne!(s.opponents[0].id, s.opponents[1].id);
    assert_eq!(s.games[0].opponent_id, s.opponents[0].id);
    assert_eq!(s.games[1].signup_id, s.id);
}

#[test]
fn schema_creation_can_rerun() {
    for q in [
        Signup::create_query(),
        Game::create_query(),
        Opponent::create_query(),
        ClaimEvent::create_query(),
    ] {
        assert!(q.starts_with("CREATE TABLE IF NOT EXISTS "));
    }
    assert_eq!(
        Signup::create_query(),
        "CREATE TABLE IF NOT EXISTS signup (id BLOB PRIMARY KEY, date TEXT NOT NULL)"
    );
    assert_eq!(
        Game::create_query(),
        "CREATE TABLE IF NOT EXISTS game (id BLOB PRIMARY KEY, time TEXT NOT NULL, opponent_id BLOB NOT NULL, signup_id BLOB NOT NULL)"
    );
    assert_eq!(
        Opponent::create_query(),
        "CREATE TABLE IF NOT EXISTS opponent (id BLOB PRIMARY KEY, name TEXT NOT NULL)"
    );
}

#[test]
fn time_parts() {
    let t = at(16, 30);
    assert_eq!(t.hour(), 16);
    assert_eq!(t.minute(), 30);
    assert!(at(9, 0).is_before(&t));
    assert!(!t.is_before(&t));
}
