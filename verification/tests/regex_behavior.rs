use std::iter::zip;

#[test]
fn tst_regex() {
    let re = regex::Regex::new(r"-+").unwrap();
    assert!(re.is_match("---------"));
    assert!(re.is_match("-------------------"));
    let temp = "javascrpt---------it is";
    let splits: Vec<_> = re.split(temp).collect();
    let aftersplit = vec!["javascrpt", "it is"];
    for (split, after) in zip(splits, aftersplit) {
        assert_eq!(split, after);
    }
}
