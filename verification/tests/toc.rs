use speedread::toc::TableOfContentNode;
use speedread::toc::toc_index;

fn node(index: usize, name: &str, children: Vec<TableOfContentNode>) -> TableOfContentNode {
    TableOfContentNode { index, name: String::from(name), children }
}

fn three_level_toc() -> Vec<TableOfContentNode> {
    vec![
        node(0, "A", vec![node(0, "A1", Vec::new()), node(3, "A2", Vec::new())]),
        node(5, "B", Vec::new()),
    ]
}

#[test]
fn toc_resolves_a_nested_position() {
    let toc = three_level_toc();
    assert_eq!(toc_index(&toc, 4), vec![0, 3]);
}

#[test]
fn toc_resolves_a_top_level_position() {
    let toc = three_level_toc();
    assert_eq!(toc_index(&toc, 5), vec![5]);
    assert_eq!(toc_index(&toc, 9), vec![5]);
}

#[test]
fn toc_before_every_node_resolves_to_the_empty_path() {
    let toc = vec![node(1, "A", Vec::new()), node(4, "B", Vec::new())];
    assert_eq!(toc_index(&toc, 0), Vec::<usize>::new());
}

#[test]
fn toc_first_covered_range_wins() {
    let toc = three_level_toc();
    assert_eq!(toc_index(&toc, 0), vec![0, 0]);
    assert_eq!(toc_index(&toc, 2), vec![0, 0]);
    assert_eq!(toc_index(&toc, 3), vec![0, 3]);
}

#[test]
fn empty_toc_resolves_to_the_empty_path() {
    assert_eq!(toc_index(&Vec::new(), 3), Vec::<usize>::new());
}
