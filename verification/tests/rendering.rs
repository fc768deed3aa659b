use reduced_ordered_binary_decision_diagram::construct_robdd;

#[test]
fn dot_for_terminal_true() {
    let (diagram, root) = construct_robdd("true").unwrap();
    assert_eq!(
        root.generic_fmt(&diagram),
        "digraph{\n1 [label=\"true\"]\n}\n"
    );
}

#[test]
fn dot_for_terminal_false() {
    let (diagram, root) = construct_robdd("a & !a").unwrap();
    assert_eq!(
        root.generic_fmt(&diagram),
        "digraph{\n0 [label=\"false\"]\n}\n"
    );
}

#[test]
fn dot_for_single_variable() {
    let (diagram, root) = construct_robdd("a").unwrap();
    let expected = "digraph{\n\
        0 [label=\"false\"]\n\
        1 [label=\"true\"]\n\
        2 [label=\"a\"]\n\
        2 -> 0 [label=\"0\"]\n\
        2 -> 1 [label=\"1\"]\n\
        }\n";
    assert_eq!(root.generic_fmt(&diagram), expected);
}

#[test]
fn dot_for_conjunction_of_two() {
    let (diagram, root) = construct_robdd("a & b").unwrap();
    let expected = "digraph{\n\
        0 [label=\"false\"]\n\
        1 [label=\"true\"]\n\
        2 [label=\"a\"]\n\
        3 [label=\"b\"]\n\
        2 -> 0 [label=\"0\"]\n\
        2 -> 3 [label=\"1\"]\n\
        3 -> 0 [label=\"0\"]\n\
        3 -> 1 [label=\"1\"]\n\
        }\n";
    assert_eq!(root.generic_fmt(&diagram), expected);
}

#[test]
fn dot_for_long_chain_uses_two_digit_identifiers() {
    // A conjunction of ten variables renders as a chain whose identifiers
    // run from 2 to 11, so the last two node identifiers need two digits.
    let names = ["a", "b", "c", "d", "e", "f", "g", "h", "i", "j"];
    let formula = names.join(" & ");
    let (diagram, root) = construct_robdd(&formula).unwrap();
    let mut expected = String::from("digraph{\n0 [label=\"false\"]\n1 [label=\"true\"]\n");
    expected.push_str("2 [label=\"a\"]\n");
    for k in 0..names.len() {
        let id = k + 2;
        if k + 1 < names.len() {
            expected.push_str(&format!("{} [label=\"{}\"]\n", id + 1, names[k + 1]));
            expected.push_str(&format!(
                "{} -> 0 [label=\"0\"]\n{} -> {} [label=\"1\"]\n",
                id,
                id,
                id + 1
            ));
        } else {
            expected.push_str(&format!(
                "{} -> 0 [label=\"0\"]\n{} -> 1 [label=\"1\"]\n",
                id, id
            ));
        }
    }
    expected.push_str("}\n");
    assert_eq!(root.generic_fmt(&diagram), expected);
}

#[test]
fn dot_shares_a_repeated_subdiagram() {
    // In c ∨ (a ∧ b) the subdiagram for c appears below both branches of
    // a and b; its node must be declared once and referred to twice.
    let (diagram, root) = construct_robdd("(a & b) | c").unwrap();
    let text = root.generic_fmt(&diagram);
    let c_lines: Vec<&str> = text
        .lines()
        .filter(|line| line.ends_with("[label=\"c\"]"))
        .collect();
    assert_eq!(c_lines.len(), 1);
    for mask in 0..8u32 {
        let a = mask & 1 != 0;
        let b = mask & 2 != 0;
        let c = mask & 4 != 0;
        let assignment = vec![a, b, c];
        assert_eq!(root.0.evaluate(&diagram, &assignment), (a && b) || c);
    }
}
