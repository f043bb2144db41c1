use altium::layer_stack::LayerStack;

fn p(k: &str, v: &str) -> (String, String) {
    (k.to_string(), v.to_string())
}

#[test]
fn stack_follows_the_chain_then_orphans() {
    let params = vec![
        p("V7_LAYER1NAME", "Top"),
        p("V7_LAYER1NEXT", "3"),
        p("V7_LAYER3NAME", "Mid"),
        p("V7_LAYER3PREV", "1"),
        p("V7_LAYER3NEXT", "2"),
        p("V7_LAYER3COPTHICK", "1.4mil"),
        p("V7_LAYER2NAME", "Bottom"),
        p("V7_LAYER2PREV", "3"),
        p("V7_LAYER2COLOR", "255"),
        p("V7_LAYER2DIELTYPE", "FR4"),
        p("V7_LAYER7NAME", "Loose"),
        p("V7_LAYER7PREV", "2"),
        p("V7_LAYER1NAME", "TopLayer"),
    ];
    let s = LayerStack::from_board_parameters(&params).unwrap();
    let names: Vec<&str> = s.layers.iter().map(|l| l.name.as_str()).collect();
    assert_eq!(names, vec!["TopLayer", "Mid", "Bottom", "Loose"]);
    let idx: Vec<i32> = s.layers.iter().map(|l| l.index).collect();
    assert_eq!(idx, vec![1, 3, 2, 7]);
    assert!(s.layers[1].copper_enabled);
    assert!(!s.layers[0].copper_enabled);
    assert_eq!(s.layers[2].color, 255);
    assert_eq!(s.layers[2].dielectric_material, "FR4");
}

#[test]
fn stack_needs_a_named_layer_and_a_head() {
    assert_eq!(LayerStack::from_board_parameters(&[p("OTHER", "1")]), None);
    let cyclic = vec![
        p("V7_LAYER1NAME", "A"),
        p("V7_LAYER1PREV", "2"),
        p("V7_LAYER2NAME", "B"),
        p("V7_LAYER2PREV", "1"),
    ];
    assert_eq!(LayerStack::from_board_parameters(&cyclic), None);
    let looped = vec![
        p("V7_LAYER1NAME", "A"),
        p("V7_LAYER1NEXT", "2"),
        p("V7_LAYER2NAME", "B"),
        p("V7_LAYER2PREV", "1"),
        p("V7_LAYER2NEXT", "1"),
    ];
    let s = LayerStack::from_board_parameters(&looped).unwrap();
    assert_eq!(s.layers.len(), 2);
    assert_eq!(s.layers[0].name, "A");
    assert_eq!(s.layers[1].name, "B");
    // an unparsable link leaves it at zero
    let s = LayerStack::from_board_parameters(&[p("V7_LAYER5NAME", "X"), p("V7_LAYER5NEXT", "x")]).unwrap();
    assert_eq!(s.layers[0].next_index, 0);
}
