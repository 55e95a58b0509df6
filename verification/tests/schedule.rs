use xfg::attachment::Attachment;
use xfg::pass::PassBuilder;
use xfg::schedule::{reorder_passes, transitive_dependencies};

fn pass(name: &str) -> PassBuilder {
    PassBuilder::new(name.to_string())
}

#[test]
fn chain_is_reordered_topologically() {
    // C depends on B, B depends on A; declared in reverse order.
    let c = pass("c").with_input(Attachment::Color(1)).with_color(2);
    let b = pass("b").with_input(Attachment::Color(0)).with_color(1);
    let a = pass("a").with_color(0);
    let (sched, deps) = reorder_passes(vec![c, b, a]).expect("acyclic set must schedule");
    let names: Vec<&str> = sched.iter().map(|p| p.name.as_str()).collect();
    assert_eq!(names, vec!["a", "b", "c"]);
    assert_eq!(deps, vec![None, Some(0), Some(1)]);
}

#[test]
fn output_is_a_permutation_of_the_input() {
    let a = pass("a").with_color(0);
    let b = pass("b").with_color(1);
    let c = pass("c").with_color(2);
    let (sched, deps) = reorder_passes(vec![a, b, c]).expect("independent passes schedule");
    assert_eq!(sched.len(), 3);
    assert_eq!(deps.len(), 3);
    let mut names: Vec<&str> = sched.iter().map(|p| p.name.as_str()).collect();
    names.sort();
    assert_eq!(names, vec!["a", "b", "c"]);
}

#[test]
fn independent_passes_keep_declaration_order() {
    let a = pass("a").with_color(0);
    let b = pass("b").with_color(1);
    let (sched, deps) = reorder_passes(vec![a, b]).expect("independent passes schedule");
    let names: Vec<&str> = sched.iter().map(|p| p.name.as_str()).collect();
    assert_eq!(names, vec!["a", "b"]);
    assert_eq!(deps, vec![None, None]);
}

#[test]
fn two_pass_cycle_is_rejected() {
    // A reads what only B writes; B reads what only A writes.
    let a = pass("a").with_input(Attachment::Color(1)).with_color(0);
    let b = pass("b").with_input(Attachment::Color(0)).with_color(1);
    assert!(reorder_passes(vec![a, b]).is_none());
}

#[test]
fn self_dependency_is_rejected() {
    let a = pass("a").with_input(Attachment::Color(0)).with_color(0);
    assert!(reorder_passes(vec![a]).is_none());
}

#[test]
fn depth_stencil_dependency_orders_passes() {
    // B samples the depth buffer that A fills.
    let b = pass("b").with_input(Attachment::DepthStencil(0)).with_color(0);
    let a = pass("a").with_depth_stencil(0);
    let (sched, deps) = reorder_passes(vec![b, a]).expect("acyclic set must schedule");
    let names: Vec<&str> = sched.iter().map(|p| p.name.as_str()).collect();
    assert_eq!(names, vec!["a", "b"]);
    assert_eq!(deps, vec![None, Some(0)]);
}

#[test]
fn siblings_record_their_ordering_constraint() {
    // Two passes write the same attachment: the second records the first
    // as its last dependency even without a read between them.
    let p1 = pass("p1").with_color(0);
    let p2 = pass("p2").with_color(0);
    let (sched, deps) = reorder_passes(vec![p1, p2]).expect("siblings schedule");
    let names: Vec<&str> = sched.iter().map(|p| p.name.as_str()).collect();
    assert_eq!(names, vec!["p1", "p2"]);
    assert_eq!(deps, vec![None, Some(0)]);
}

#[test]
fn empty_set_schedules_to_empty() {
    let (sched, deps) = reorder_passes(Vec::new()).expect("empty set schedules");
    assert!(sched.is_empty());
    assert!(deps.is_empty());
}

#[test]
fn transitive_dependencies_follow_chains() {
    // d -> c -> b -> a, and an unrelated e.
    let a = pass("a").with_color(0);
    let b = pass("b").with_input(Attachment::Color(0)).with_color(1);
    let c = pass("c").with_input(Attachment::Color(1)).with_color(2);
    let d = pass("d").with_input(Attachment::Color(2)).with_color(3);
    let e = pass("e").with_color(4);
    let passes = vec![a, b, c, d, e];
    assert_eq!(transitive_dependencies(&passes, &passes[3]), vec![0, 1, 2]);
    assert_eq!(transitive_dependencies(&passes, &passes[1]), vec![0]);
    assert_eq!(transitive_dependencies(&passes, &passes[0]), Vec::<usize>::new());
    assert_eq!(transitive_dependencies(&passes, &passes[4]), Vec::<usize>::new());
}

#[test]
fn transitive_dependencies_handle_cycles_without_diverging() {
    let a = pass("a").with_input(Attachment::Color(1)).with_color(0);
    let b = pass("b").with_input(Attachment::Color(0)).with_color(1);
    let passes = vec![a, b];
    // Both passes reach each other (and themselves through the cycle).
    assert_eq!(transitive_dependencies(&passes, &passes[0]), vec![0, 1]);
    assert_eq!(transitive_dependencies(&passes, &passes[1]), vec![0, 1]);
}
