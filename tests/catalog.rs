use learnable::catalog::{
    drop_into_hole, first_containing, BlockType, ConceptType, ConnectionDirection, DropOutcome,
    HoleType, Language,
};

fn block(name: &str) -> BlockType {
    BlockType {
        name: name.to_string(),
        language: "javascript".to_string(),
        holes: vec![HoleType::Any, HoleType::Number],
        connectors: vec![ConnectionDirection::Bottom, ConnectionDirection::Left],
        template_string: format!("{name}({{{{1}}}}, {{{{2}}}})"),
        in_hole: name == "Comparison",
        value: HoleType::Unit,
        concept_type: ConceptType::Input,
    }
}

fn language() -> Language {
    Language { blocks: vec![block("Start"), block("Declaration"), block("Comparison"), block("Text")] }
}

#[test]
fn block_type_getters() {
    let b = block("Comparison");
    assert_eq!(b.get_template(), "Comparison({{1}}, {{2}})");
    assert_eq!(b.get_holes(), 2);
    assert!(b.can_be_in_a_hole());
    assert!(!block("Declaration").can_be_in_a_hole());
    assert!(block("Start").is_start());
    assert!(!block("start").is_start());
    assert!(!block("Starts").is_start());
}

#[test]
fn get_block_by_exact_name() {
    let lang = language();
    assert_eq!(lang.get_block("Declaration").map(|b| b.name.as_str()), Some("Declaration"));
    assert!(lang.get_block("declaration").is_none());
    assert!(lang.get_block("Missing").is_none());
}

#[test]
fn search_ignores_case() {
    let lang = language();
    assert_eq!(lang.search_block("DECL").map(|b| b.name.as_str()), Some("Declaration"));
    assert_eq!(lang.search_block("ar").map(|b| b.name.as_str()), Some("Start"));
    assert_eq!(lang.search_block("").map(|b| b.name.as_str()), Some("Start"));
    assert!(lang.search_block("while").is_none());
}

#[test]
fn first_containing_on_lowered_names() {
    let names = vec!["start".to_string(), "declaration".to_string()];
    assert_eq!(first_containing(&names, "clar"), Some(1));
    assert_eq!(first_containing(&names, "CLAR"), None);
    assert_eq!(first_containing(&names, "zzz"), None);
}

#[test]
fn directions_and_slots() {
    assert_eq!(ConnectionDirection::get_direction(0), Some(ConnectionDirection::Bottom));
    assert_eq!(ConnectionDirection::get_direction(1), Some(ConnectionDirection::Left));
    assert_eq!(ConnectionDirection::get_direction(2), Some(ConnectionDirection::Right));
    assert_eq!(ConnectionDirection::get_direction(3), None);
    assert_eq!(ConnectionDirection::Left.get_parse_order(), 0);
    assert_eq!(ConnectionDirection::Right.get_parse_order(), 1);
    assert_eq!(ConnectionDirection::Bottom.get_parse_order(), 2);
    assert_eq!(ConnectionDirection::Top.get_parse_order(), 3);
    assert_eq!(ConnectionDirection::Center.get_parse_order(), 4);
}

#[test]
fn text_block_takes_type_of_its_text() {
    let mut text = block("Text");
    text.set_text_value_type("42");
    assert_eq!(text.value, HoleType::Number);
    text.set_text_value_type("==");
    assert_eq!(text.value, HoleType::Comparitor);
    let mut other = block("Declaration");
    other.set_text_value_type("42");
    assert_eq!(other.value, HoleType::Unit);
}

#[test]
fn dropping_blocks_into_holes() {
    let mut comparison = block("Comparison");
    comparison.value = HoleType::Bool;
    assert_eq!(drop_into_hole(&comparison, 1, false, 2, &HoleType::Bool), DropOutcome::Placed);
    assert_eq!(drop_into_hole(&comparison, 1, false, 2, &HoleType::Any), DropOutcome::Placed);
    assert_eq!(drop_into_hole(&comparison, 1, false, 2, &HoleType::Number), DropOutcome::WrongType);
    assert_eq!(drop_into_hole(&comparison, 1, true, 2, &HoleType::Bool), DropOutcome::Ignored);
    assert_eq!(drop_into_hole(&comparison, 2, false, 2, &HoleType::Bool), DropOutcome::Ignored);
    let declaration = block("Declaration");
    assert_eq!(drop_into_hole(&declaration, 1, false, 2, &HoleType::Any), DropOutcome::Ignored);
}

#[test]
fn named_kinds_compare_by_name() {
    let mut typed = block("Comparison");
    typed.value = HoleType::Type("List".to_string());
    assert_eq!(drop_into_hole(&typed, 1, false, 2, &HoleType::Type("List".to_string())), DropOutcome::Placed);
    assert_eq!(drop_into_hole(&typed, 1, false, 2, &HoleType::Type("Map".to_string())), DropOutcome::WrongType);
    assert!(HoleType::Type("A".to_string()).same_kind_as(&HoleType::Type("A".to_string())));
    assert!(!HoleType::Type("A".to_string()).same_kind_as(&HoleType::Any));
    assert!(HoleType::Variable.same_kind_as(&HoleType::Variable));
}
