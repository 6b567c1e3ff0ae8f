use sniffcss::uniformity::{push_deviation, uniformity_plan, Instance, KeyCheck};

fn inst(selector: &str, props: &[(&str, Option<&str>)]) -> Instance {
    Instance {
        selector: selector.to_string(),
        props: props
            .iter()
            .map(|(k, v)| (k.to_string(), v.map(|s| s.to_string())))
            .collect(),
    }
}

#[test]
fn plan_needs_two_instances() {
    let one = vec![inst("a", &[("box_model.width", Some("1px"))])];
    assert!(uniformity_plan(&one).is_empty());
    assert!(uniformity_plan(&Vec::new()).is_empty());
}

#[test]
fn plan_lists_valued_properties_in_text_order() {
    let insts = vec![
        inst("a", &[("visual.color", Some("red")), ("box_model.width", Some("1px")), ("x.none", None)]),
        inst("b", &[("box_model.width", Some("2px")), ("visual.color", Some("red"))]),
    ];
    let plan = uniformity_plan(&insts);
    let keys: Vec<&str> = plan.iter().map(|(k, _)| k.as_str()).collect();
    assert_eq!(keys, vec!["box_model.width", "visual.color"]);
    match &plan[0].1 {
        KeyCheck::Compare { values } => assert_eq!(values, &vec!["1px".to_string(), "2px".to_string()]),
        KeyCheck::Missing { .. } => panic!("every instance has a width"),
    }
}

#[test]
fn plan_reports_missing_instances_against_the_first_value() {
    let insts = vec![
        inst("a", &[("layout.display", None)]),
        inst("b", &[("layout.display", Some("flex"))]),
        inst("c", &[]),
        inst("d", &[("layout.display", Some("block")), ("layout.display", Some("grid"))]),
    ];
    let plan = uniformity_plan(&insts);
    assert_eq!(plan.len(), 1);
    match &plan[0].1 {
        KeyCheck::Missing { norm, missing } => {
            assert_eq!(norm, "flex");
            assert_eq!(missing, &vec![0, 2]);
        }
        KeyCheck::Compare { .. } => panic!("two instances lack a value"),
    }
}

#[test]
fn deviations_group_by_selector_in_first_seen_order() {
    let mut groups: Vec<(String, Vec<u32>)> = Vec::new();
    push_deviation(&mut groups, &"b".to_string(), 1);
    push_deviation(&mut groups, &"a".to_string(), 2);
    push_deviation(&mut groups, &"b".to_string(), 3);
    assert_eq!(groups, vec![("b".to_string(), vec![1, 3]), ("a".to_string(), vec![2])]);
}

