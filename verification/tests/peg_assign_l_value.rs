use myps::grammar::{MypsParser, Rule};

fn parse_assign_l_value(source: &str) -> Vec<(Rule, String)> {
    let chars: Vec<char> = source.chars().collect();
    MypsParser::parse(Rule::assign_l_value_line, source)
        .unwrap()
        .into_iter()
        .map(|p| (p.as_rule(), chars[p.start..p.end].iter().collect()))
        .collect()
}

fn assert_assign_l_value_pairs(source: &str, expected: &[(Rule, &str)]) {
    let pairs = parse_assign_l_value(source);
    let mut want: Vec<(Rule, String)> = expected.iter().map(|(r, s)| (*r, s.to_string())).collect();
    want.push((Rule::EOI, String::new()));
    assert_eq!(pairs, want);
}

#[test]
fn assign_l_value1() {
    assert_assign_l_value_pairs(
        "sensor = d0",
        &[
            (Rule::assign_l_value, "sensor = d0"),
            (Rule::alias, "sensor"),
            (Rule::dev_lit, "d0"),
            (Rule::int_lit, "0"),
        ],
    );
}

#[test]
fn assign_l_value2() {
    assert_assign_l_value_pairs(
        "panels = -2045627372.all",
        &[
            (Rule::assign_l_value, "panels = -2045627372.all"),
            (Rule::alias, "panels"),
            (Rule::dev_batch, "-2045627372.all"),
            (Rule::int_lit, "-2045627372"),
        ],
    );
}

#[test]
#[should_panic]
fn assign_l_value_panic1() {
    parse_assign_l_value("d0 = d0");
}

#[test]
#[should_panic]
fn assign_l_value_panic2() {
    parse_assign_l_value("x = (1 + 2)");
}
