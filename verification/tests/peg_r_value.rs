use myps::grammar::{MypsParser, Rule};

fn parse_rvalue(source: &str) -> Vec<(Rule, String)> {
    let chars: Vec<char> = source.chars().collect();
    MypsParser::parse(Rule::r_value_line, source)
        .unwrap()
        .into_iter()
        .map(|p| (p.as_rule(), chars[p.start..p.end].iter().collect()))
        .collect()
}

fn assert_rvalue_pairs(source: &str, expected: &[(Rule, &str)]) {
    let pairs = parse_rvalue(source);
    let mut want: Vec<(Rule, String)> = expected.iter().map(|(r, s)| (*r, s.to_string())).collect();
    want.push((Rule::EOI, String::new()));
    assert_eq!(pairs, want);
}

#[test]
fn rvalue_batch_param() {
    assert_rvalue_pairs(
        "-128473777.sum.Setting",
        &[
            (Rule::r_param, "-128473777.sum.Setting"),
            (Rule::r_batch, "-128473777.sum"),
            (Rule::int_lit, "-128473777"),
            (Rule::batch_sum, "sum"),
            (Rule::param, "Setting"),
        ],
    );
    assert_rvalue_pairs(
        "SolarPanel.max.Horizontal",
        &[
            (Rule::r_param, "SolarPanel.max.Horizontal"),
            (Rule::r_batch, "SolarPanel.max"),
            (Rule::alias, "SolarPanel"),
            (Rule::batch_max, "max"),
            (Rule::param, "Horizontal"),
        ],
    );
}
