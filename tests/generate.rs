use learnable::ast::{
    AddToAst, Ast, BlockData, BlockDataMap, BlockDataType, Diagnostic, GenerateError, RemoveFromAst,
};
use learnable::catalog::{
    BlockType, ConceptType, ConnectionDirection, HoleType, FLOW_SLOT, LEFT_SLOT, RIGHT_SLOT,
};

fn block(name: &str, holes: usize, template: &str) -> BlockType {
    BlockType {
        name: name.to_string(),
        language: "javascript".to_string(),
        holes: vec![HoleType::Any; holes],
        connectors: vec![ConnectionDirection::Bottom],
        template_string: template.to_string(),
        in_hole: false,
        value: HoleType::Unit,
        concept_type: ConceptType::ControlFlow,
    }
}

fn start() -> BlockType {
    block("Start", 0, "// program")
}

fn declaration() -> BlockType {
    block("Declaration", 2, "let {{1}} = {{2}}")
}

fn literal(position: usize, text: &str) -> BlockData {
    BlockData {
        block_type: block("Text", 0, ""),
        data_type: BlockDataType::Value(text.to_string()),
        position,
    }
}

fn nested(position: usize, node: u64, block_type: BlockType) -> BlockData {
    BlockData { block_type, data_type: BlockDataType::Hole(node), position }
}

fn register(ast: &mut Ast, data: &mut BlockDataMap, node: u64, block_type: BlockType) {
    ast.register_node(node, block_type);
    data.register_node(node);
}

fn code_of(ast: &Ast, data: &BlockDataMap) -> String {
    ast.generate(data).unwrap().code
}

#[test]
fn start_then_declaration() {
    let mut ast = Ast::new();
    let mut data = BlockDataMap::new();
    register(&mut ast, &mut data, 1, start());
    register(&mut ast, &mut data, 2, declaration());
    data.set_hole_value(2, literal(0, "x"));
    data.set_hole_value(2, literal(1, "5"));
    ast.add_structural_edge(1, FLOW_SLOT, (2, declaration()));
    let generated = ast.generate(&data).unwrap();
    assert_eq!(generated.code, "// program\nlet x = 5");
    assert!(generated.diagnostics.is_empty());
}

#[test]
fn comparison_nested_in_if() {
    let comparison = block("Comparison", 3, "{{1}} {{2}} {{3}}");
    let if_block = block("If", 1, "if ({{1}}) { {{2}} } else { {{3}} }");
    let body = block("Body", 0, "...");
    let mut ast = Ast::new();
    let mut data = BlockDataMap::new();
    register(&mut ast, &mut data, 1, start());
    register(&mut ast, &mut data, 2, if_block.clone());
    register(&mut ast, &mut data, 3, comparison.clone());
    register(&mut ast, &mut data, 4, body.clone());
    register(&mut ast, &mut data, 5, body.clone());
    data.set_hole_value(3, literal(0, "a"));
    data.set_hole_value(3, literal(1, ">"));
    data.set_hole_value(3, literal(2, "b"));
    data.set_hole_value(2, nested(0, 3, comparison));
    ast.add_structural_edge(2, LEFT_SLOT, (4, body.clone()));
    ast.add_structural_edge(2, RIGHT_SLOT, (5, body));
    ast.add_structural_edge(1, FLOW_SLOT, (2, if_block.clone()));
    assert_eq!(ast.traverse_branch(2, &if_block, &data), "if (a > b) { ... } else { ... }");
    assert_eq!(code_of(&ast, &data), "// program\nif (a > b) { ... } else { ... }");
}

#[test]
fn generating_twice_gives_the_same_text() {
    let mut ast = Ast::new();
    let mut data = BlockDataMap::new();
    register(&mut ast, &mut data, 10, start());
    for node in 11..16u64 {
        register(&mut ast, &mut data, node, declaration());
        data.set_hole_value(node, literal(1, "0"));
        data.set_hole_value(node, literal(0, &format!("v{node}")));
        ast.add_structural_edge(node - 1, FLOW_SLOT, (node, declaration()));
    }
    let first = ast.generate(&data).unwrap();
    let second = ast.generate(&data).unwrap();
    assert_eq!(first.code, second.code);
    assert_eq!(first.diagnostics, second.diagnostics);
}

#[test]
fn holes_follow_position_order() {
    let mut ast = Ast::new();
    let mut data = BlockDataMap::new();
    let three = block("Three", 3, "{{1}}-{{2}}-{{3}}");
    register(&mut ast, &mut data, 1, three.clone());
    data.set_hole_value(1, literal(2, "c"));
    data.set_hole_value(1, literal(0, "a"));
    data.set_hole_value(1, literal(1, "b"));
    let positions: Vec<usize> = data.get_hole_values(1).unwrap().iter().map(|d| d.position).collect();
    assert_eq!(positions, vec![0, 1, 2]);
    assert_eq!(data.expand_holes(&ast, 1, &three), "a-b-c");
}

#[test]
fn same_holes_in_any_order_give_the_same_text() {
    let three = block("Three", 3, "{{1}}-{{2}}-{{3}}");
    let mut ast = Ast::new();
    let mut one = BlockDataMap::new();
    let mut two = BlockDataMap::new();
    ast.register_node(1, three.clone());
    one.set_hole_value(1, literal(0, "a"));
    one.set_hole_value(1, literal(5, "z"));
    one.set_hole_value(1, literal(2, "m"));
    two.set_hole_value(1, literal(2, "m"));
    two.set_hole_value(1, literal(0, "a"));
    two.set_hole_value(1, literal(5, "z"));
    assert_eq!(one.expand_holes(&ast, 1, &three), "a-m-z");
    assert_eq!(two.expand_holes(&ast, 1, &three), "a-m-z");
}

#[test]
fn setting_a_hole_again_replaces_it() {
    let mut data = BlockDataMap::new();
    data.set_hole_value(7, literal(0, "old"));
    data.set_hole_value(7, literal(0, "new"));
    let holes = data.get_hole_values(7).unwrap();
    assert_eq!(holes.len(), 1);
    assert_eq!(holes[0].data_type, BlockDataType::Value("new".to_string()));
    data.remove_hole_value(7, 0);
    assert!(data.get_hole_values(7).unwrap().is_empty());
    data.remove_hole_value(7, 3);
    assert!(data.get_hole_values(7).unwrap().is_empty());
    data.remove_node(7);
    assert!(data.get_hole_values(7).is_none());
}

#[test]
fn placeholder_text_in_a_value_is_kept() {
    let mut ast = Ast::new();
    let mut data = BlockDataMap::new();
    register(&mut ast, &mut data, 1, declaration());
    data.set_hole_value(1, literal(0, "{{2}}"));
    data.set_hole_value(1, literal(1, "{{1}}"));
    assert_eq!(data.expand_holes(&ast, 1, &declaration()), "let {{2}} = {{1}}");
}

#[test]
fn each_placeholder_is_replaced_once() {
    let twice = block("Twice", 1, "{{1}} and {{1}}");
    let mut ast = Ast::new();
    let mut data = BlockDataMap::new();
    register(&mut ast, &mut data, 1, twice.clone());
    data.set_hole_value(1, literal(0, "x"));
    assert_eq!(data.expand_holes(&ast, 1, &twice), "x and {{1}}");
}

#[test]
fn flow_chain_gives_one_line_per_block() {
    let mut ast = Ast::new();
    let mut data = BlockDataMap::new();
    let names = ["a", "b", "c", "d"];
    for (i, name) in names.iter().enumerate() {
        let node = i as u64 + 1;
        register(&mut ast, &mut data, node, declaration());
        data.set_hole_value(node, literal(0, name));
        data.set_hole_value(node, literal(1, &i.to_string()));
        if node > 1 {
            ast.add_structural_edge(node - 1, FLOW_SLOT, (node, declaration()));
        }
    }
    let text = ast.traverse_branch(1, &declaration(), &data);
    assert_eq!(text, "let a = 0\nlet b = 1\nlet c = 2\nlet d = 3");
    assert_eq!(text.lines().count(), 4);
}

#[test]
fn empty_graph_has_no_program() {
    let ast = Ast::new();
    let data = BlockDataMap::new();
    assert_eq!(ast.generate(&data).unwrap_err(), GenerateError::MissingStart);
}

#[test]
fn graph_without_start_has_no_program() {
    let mut ast = Ast::new();
    let mut data = BlockDataMap::new();
    register(&mut ast, &mut data, 1, declaration());
    register(&mut ast, &mut data, 2, declaration());
    ast.add_structural_edge(1, FLOW_SLOT, (2, declaration()));
    assert_eq!(ast.generate(&data).unwrap_err(), GenerateError::MissingStart);
}

#[test]
fn start_removed_leaves_no_program() {
    let mut ast = Ast::new();
    let data = BlockDataMap::new();
    ast.register_node(1, start());
    assert!(ast.generate(&data).is_ok());
    ast.handle_remove_from_ast(RemoveFromAst { parent: None, child: 1 });
    assert_eq!(ast.generate(&data).unwrap_err(), GenerateError::MissingStart);
}

#[test]
fn left_branch_only_leaves_right_placeholder() {
    let if_block = block("If", 1, "if ({{1}}) { {{2}} } else { {{3}} }");
    let body = block("Body", 0, "go()");
    let mut ast = Ast::new();
    let mut data = BlockDataMap::new();
    register(&mut ast, &mut data, 1, if_block.clone());
    register(&mut ast, &mut data, 2, body.clone());
    data.set_hole_value(1, literal(0, "ok"));
    ast.add_structural_edge(1, LEFT_SLOT, (2, body));
    assert_eq!(ast.traverse_branch(1, &if_block, &data), "if (ok) { go() } else { {{3}} }");
}

#[test]
fn right_branch_keeps_its_own_placeholder() {
    let if_block = block("If", 1, "if ({{1}}) { {{2}} } else { {{3}} }");
    let body = block("Body", 0, "stop()");
    let mut ast = Ast::new();
    let mut data = BlockDataMap::new();
    register(&mut ast, &mut data, 1, if_block.clone());
    register(&mut ast, &mut data, 2, body.clone());
    data.set_hole_value(1, literal(0, "ok"));
    ast.add_structural_edge(1, RIGHT_SLOT, (2, body));
    assert_eq!(ast.traverse_branch(1, &if_block, &data), "if (ok) { {{2}} } else { stop() }");
}

#[test]
fn branches_and_flow_together() {
    let if_block = block("If", 1, "if ({{1}}) {\n{{2}}\n} else {\n{{3}}\n}");
    let print = block("Print", 1, "console.log({{1}})");
    let mut ast = Ast::new();
    let mut data = BlockDataMap::new();
    register(&mut ast, &mut data, 1, start());
    register(&mut ast, &mut data, 2, if_block.clone());
    for node in 3..=5u64 {
        register(&mut ast, &mut data, node, print.clone());
        data.set_hole_value(node, literal(0, &format!("{node}")));
    }
    data.set_hole_value(2, literal(0, "true"));
    ast.handle_add_to_ast(AddToAst { parent: Some((1, FLOW_SLOT)), child: (2, if_block) });
    ast.handle_add_to_ast(AddToAst { parent: Some((2, LEFT_SLOT)), child: (3, print.clone()) });
    ast.handle_add_to_ast(AddToAst { parent: Some((2, RIGHT_SLOT)), child: (4, print.clone()) });
    ast.handle_add_to_ast(AddToAst { parent: Some((2, FLOW_SLOT)), child: (5, print) });
    assert_eq!(
        code_of(&ast, &data),
        "// program\nif (true) {\nconsole.log(3)\n} else {\nconsole.log(4)\n}\nconsole.log(5)"
    );
}

#[test]
fn dangling_reference_expands_to_nothing() {
    let print = block("Print", 1, "print({{1}})");
    let mut ast = Ast::new();
    let mut data = BlockDataMap::new();
    register(&mut ast, &mut data, 1, start());
    register(&mut ast, &mut data, 2, print.clone());
    data.set_hole_value(2, nested(0, 99, declaration()));
    ast.add_structural_edge(1, FLOW_SLOT, (2, print.clone()));
    let generated = ast.generate(&data).unwrap();
    assert_eq!(generated.code, "// program\nprint()");
    assert_eq!(generated.diagnostics, vec![Diagnostic::DanglingReference(99)]);
}

#[test]
fn removed_child_is_reported_as_dangling() {
    let mut ast = Ast::new();
    let mut data = BlockDataMap::new();
    register(&mut ast, &mut data, 1, start());
    register(&mut ast, &mut data, 2, declaration());
    ast.add_structural_edge(1, FLOW_SLOT, (2, declaration()));
    ast.remove_node(2);
    let generated = ast.generate(&data).unwrap();
    assert_eq!(generated.code, "// program\n");
    assert_eq!(generated.diagnostics, vec![Diagnostic::DanglingReference(2)]);
}

#[test]
fn flow_cycle_is_cut() {
    let mut ast = Ast::new();
    let mut data = BlockDataMap::new();
    let line = block("Line", 0, "step()");
    register(&mut ast, &mut data, 1, start());
    register(&mut ast, &mut data, 2, line.clone());
    ast.add_structural_edge(1, FLOW_SLOT, (2, line.clone()));
    ast.add_structural_edge(2, FLOW_SLOT, (1, start()));
    let generated = ast.generate(&data).unwrap();
    assert_eq!(generated.code, "// program\nstep()\n");
    assert_eq!(generated.diagnostics, vec![Diagnostic::Cycle(1)]);
}

#[test]
fn hole_cycle_is_cut() {
    let wrap = block("Wrap", 1, "({{1}})");
    let mut ast = Ast::new();
    let mut data = BlockDataMap::new();
    register(&mut ast, &mut data, 1, wrap.clone());
    register(&mut ast, &mut data, 2, wrap.clone());
    data.set_hole_value(1, nested(0, 2, wrap.clone()));
    data.set_hole_value(2, nested(0, 1, wrap.clone()));
    assert_eq!(data.expand_holes(&ast, 1, &wrap), "(())");
}

#[test]
fn missing_placeholder_and_missing_holes_are_reported() {
    let short = block("Short", 2, "only {{1}}");
    let mut ast = Ast::new();
    let mut data = BlockDataMap::new();
    register(&mut ast, &mut data, 1, start());
    ast.register_node(2, short.clone());
    ast.register_node(3, short.clone());
    data.set_hole_value(2, literal(0, "a"));
    data.set_hole_value(2, literal(1, "b"));
    ast.add_structural_edge(1, FLOW_SLOT, (2, short.clone()));
    ast.add_structural_edge(2, FLOW_SLOT, (3, short));
    let generated = ast.generate(&data).unwrap();
    assert_eq!(generated.code, "// program\nonly a\nonly {{1}}");
    assert_eq!(
        generated.diagnostics,
        vec![Diagnostic::UnusedValue(2, 2), Diagnostic::MissingHoles(3)]
    );
}

#[test]
fn structural_edges_are_set_and_cleared() {
    let mut ast = Ast::new();
    ast.register_node(1, start());
    ast.add_structural_edge(1, FLOW_SLOT, (2, declaration()));
    ast.add_structural_edge(1, FLOW_SLOT, (3, declaration()));
    let slots = ast.get_structural_children(1).unwrap();
    assert_eq!(slots[FLOW_SLOT].as_ref().map(|c| c.0), Some(3));
    assert!(slots[LEFT_SLOT].is_none());
    ast.remove_structural_edge(1, FLOW_SLOT);
    assert!(ast.get_structural_children(1).unwrap()[FLOW_SLOT].is_none());
    ast.remove_structural_edge(9, FLOW_SLOT);
    assert!(ast.get_structural_children(9).is_none());
    ast.handle_remove_from_ast(RemoveFromAst { parent: Some((1, LEFT_SLOT)), child: 2 });
    assert!(ast.get_structural_children(1).unwrap()[LEFT_SLOT].is_none());
}

#[test]
fn registering_again_keeps_children_and_updates_type() {
    let mut ast = Ast::new();
    ast.handle_add_to_ast(AddToAst { parent: None, child: (1, declaration()) });
    ast.add_structural_edge(1, FLOW_SLOT, (2, declaration()));
    ast.register_node(1, start());
    assert_eq!(ast.blocks.len(), 1);
    assert_eq!(ast.blocks[0].1.name, "Start");
    assert!(ast.get_structural_children(1).unwrap()[FLOW_SLOT].is_some());
}

#[test]
fn first_registered_start_is_used() {
    let other = block("Start", 0, "// other");
    let mut ast = Ast::new();
    let data = BlockDataMap::new();
    ast.register_node(5, start());
    ast.register_node(3, other);
    assert_eq!(code_of(&ast, &data), "// program");
}
