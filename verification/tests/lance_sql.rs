use fractalaw_taxa::lance_sql::{parse_usize, query_plan, update_plan, Answer, UpdatePlan};

fn chars(s: &str) -> Vec<char> {
    s.chars().collect()
}

#[test]
fn query_reads_where_limit_and_offset() {
    let p = query_plan("SELECT * FROM legislation_text WHERE law_name = 'UK_ukpga_1974_37' LIMIT 5 OFFSET 10").unwrap();
    assert_eq!(p.filter, "law_name = 'UK_ukpga_1974_37'");
    assert_eq!(p.limit, 5);
    assert_eq!(p.offset, 10);
    assert_eq!(p.answer, Answer::Rows);
}

#[test]
fn query_where_ends_at_order_by_in_any_case() {
    let p = query_plan("select * from legislation_text where section_id = 's.1' order by position limit 2").unwrap();
    assert_eq!(p.filter, "section_id = 's.1'");
    assert_eq!(p.limit, 2);
    assert_eq!(p.offset, 0);
}

#[test]
fn query_without_where_or_limit_gets_defaults() {
    let p = query_plan("SELECT count(*) FROM legislation_text").unwrap();
    assert_eq!(p.filter, "true");
    assert_eq!(p.limit, 1000);
    assert_eq!(p.offset, 0);
    assert_eq!(p.answer, Answer::Count);
}

#[test]
fn query_unreadable_limit_falls_back() {
    let p = query_plan("SELECT * FROM legislation_text LIMIT many OFFSET -3").unwrap();
    assert_eq!(p.limit, 1000);
    assert_eq!(p.offset, 0);
}

#[test]
fn query_to_json_wins_over_count() {
    let p = query_plan("SELECT to_json(struct_pack(n := count(x))) FROM legislation_text WHERE a = 1").unwrap();
    assert_eq!(p.answer, Answer::Json);
    assert_eq!(p.filter, "a = 1");
}

#[test]
fn parse_usize_follows_str_parse() {
    assert_eq!(parse_usize(&chars("42")), Some(42));
    assert_eq!(parse_usize(&chars("+7")), Some(7));
    assert_eq!(parse_usize(&chars("-7")), None);
    assert_eq!(parse_usize(&chars("+")), None);
    assert_eq!(parse_usize(&chars("")), None);
    assert_eq!(parse_usize(&chars("12a")), None);
    assert_eq!(parse_usize(&chars("99999999999999999999999")), None);
}

#[test]
fn update_reads_quoted_assignments_and_filter() {
    match update_plan("UPDATE legislation_text SET summary = 'a, b', score = 3 WHERE id = 'k'").unwrap() {
        UpdatePlan::Update { filter, assignments } => {
            assert_eq!(filter, "id = 'k'");
            assert_eq!(
                assignments,
                vec![
                    ("summary".to_string(), "'a, b'".to_string()),
                    ("score".to_string(), "3".to_string()),
                ]
            );
        }
        _ => panic!("expected an update"),
    }
}

#[test]
fn update_without_where_matches_everything() {
    match update_plan("update legislation_text set flag = true, broken, ").unwrap() {
        UpdatePlan::Update { filter, assignments } => {
            assert_eq!(filter, "true");
            assert_eq!(assignments, vec![("flag".to_string(), "true".to_string())]);
        }
        _ => panic!("expected an update"),
    }
}

#[test]
fn update_other_statements() {
    assert!(matches!(update_plan("CREATE TABLE legislation_text (id TEXT)").unwrap(), UpdatePlan::NoOp));
    assert!(matches!(update_plan("alter table legislation_text add x int").unwrap(), UpdatePlan::NoOp));
    assert!(matches!(update_plan("UPDATE legislation_text").unwrap(), UpdatePlan::MissingSet));
    match update_plan("DELETE FROM legislation_text").unwrap() {
        UpdatePlan::Unsupported { head } => assert_eq!(head, "DELETE FROM legislation_text"),
        _ => panic!("expected unsupported"),
    }
    let long = "X".repeat(100);
    match update_plan(&long).unwrap() {
        UpdatePlan::Unsupported { head } => assert_eq!(head.chars().count(), 80),
        _ => panic!("expected unsupported"),
    }
}

#[test]
fn query_cuts_at_byte_offsets_of_the_upper_cased_statement() {
    // 'ß' upper-cases to "SS": two bytes either way, so the byte offsets agree.
    let p = query_plan("SELECT * FROM legislation_text WHERE name = 'ß' LIMIT 5").unwrap();
    assert_eq!(p.filter, "name = 'ß'");
    assert_eq!(p.limit, 5);
    // 'ı' upper-cases to one-byte 'I': the cut before LIMIT falls inside 'é'.
    assert!(query_plan("SELECT * FROM t WHERE ııé LIMIT 5").is_none());
}

#[test]
fn unsupported_head_is_the_first_80_bytes() {
    let s = "é".repeat(50);
    match update_plan(&s).unwrap() {
        UpdatePlan::Unsupported { head } => assert_eq!(head, "é".repeat(40)),
        _ => panic!("expected unsupported"),
    }
    // Byte 80 falls inside a two-byte character here.
    let odd = format!("x{}", "é".repeat(50));
    assert!(update_plan(&odd).is_none());
}
