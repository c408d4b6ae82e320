use behave_demo::behave::{Behave, BehaveInstance, Condition, Status, Tree};
use behave_demo::hunger::Hunger;

fn leaf(a: u8) -> Behave<u8> {
    Behave::Leaf { action: a }
}

fn action(tree: &Tree<u8>, inst: &BehaveInstance) -> Option<u8> {
    inst.active_leaf().map(|i| match tree.node(i) {
        Behave::Leaf { action } => *action,
        _ => panic!("active node is not a leaf"),
    })
}

#[test]
fn sequence_advances_on_success_and_finishes() {
    let tree = Tree::new(vec![Behave::Sequence { children: vec![1, 2] }, leaf(10), leaf(20)]);
    let mut inst = BehaveInstance::new(&tree, &None);
    assert_eq!(action(&tree, &inst), Some(10));
    assert!(!inst.report(&tree, Status::Success, &None));
    assert_eq!(action(&tree, &inst), Some(20));
    assert!(inst.report(&tree, Status::Success, &None));
    assert!(inst.is_finished());
    assert_eq!(action(&tree, &inst), None);
}

#[test]
fn sequence_aborts_on_failure() {
    let tree = Tree::new(vec![Behave::Sequence { children: vec![1, 2] }, leaf(10), leaf(20)]);
    let mut inst = BehaveInstance::new(&tree, &None);
    assert!(inst.report(&tree, Status::Failure, &None));
    assert!(inst.is_finished());
}

#[test]
fn forever_restarts_its_child_after_success_or_failure() {
    let tree = Tree::new(vec![
        Behave::Forever { child: 1 },
        Behave::Sequence { children: vec![2, 3, 4] },
        leaf(1),
        leaf(2),
        leaf(3),
    ]);
    let mut inst = BehaveInstance::new(&tree, &None);
    let mut seen = vec![];
    for _ in 0..7 {
        seen.push(action(&tree, &inst).unwrap());
        assert!(!inst.report(&tree, Status::Success, &None));
    }
    assert_eq!(seen, vec![1, 2, 3, 1, 2, 3, 1]);
    assert!(!inst.report(&tree, Status::Failure, &None));
    assert_eq!(action(&tree, &inst), Some(1));
}

#[test]
fn if_then_checks_its_condition_on_each_entry() {
    let tree = Tree::new(vec![
        Behave::Forever { child: 1 },
        Behave::IfThen {
            condition: Condition::HungerCheck { numerator: 2, denominator: 5 },
            then_branch: 2,
            else_branch: 3,
        },
        leaf(7),
        leaf(8),
    ]);
    let full = Some(Hunger::new(10));
    let mut hungry = Hunger::new(10);
    for _ in 0..7 {
        hungry.decay();
    }
    let hungry = Some(hungry);
    let mut inst = BehaveInstance::new(&tree, &full);
    assert_eq!(action(&tree, &inst), Some(8));
    assert!(!inst.report(&tree, Status::Success, &hungry));
    assert_eq!(action(&tree, &inst), Some(7));
    assert!(!inst.report(&tree, Status::Failure, &None));
    assert_eq!(action(&tree, &inst), Some(8));
}

#[test]
fn if_then_result_passes_up_through_a_sequence() {
    let tree = Tree::new(vec![
        Behave::Sequence { children: vec![1, 4] },
        Behave::IfThen {
            condition: Condition::HungerCheck { numerator: 1, denominator: 1 },
            then_branch: 2,
            else_branch: 3,
        },
        leaf(1),
        leaf(2),
        leaf(3),
    ]);
    let h = Some(Hunger::new(4));
    let mut inst = BehaveInstance::new(&tree, &h);
    assert_eq!(action(&tree, &inst), Some(2));
    assert!(!inst.report(&tree, Status::Success, &h));
    assert_eq!(action(&tree, &inst), Some(3));
    assert!(inst.report(&tree, Status::Success, &h));
}

#[test]
fn well_formedness_requires_forward_children_and_non_empty_sequences() {
    let good = Tree::new(vec![Behave::Forever { child: 1 }, leaf(1)]);
    assert!(good.is_well_formed());
    let backward = Tree::new(vec![Behave::Forever { child: 0 }, leaf(1)]);
    assert!(!backward.is_well_formed());
    let dangling = Tree::new(vec![Behave::Sequence { children: vec![1, 2] }, leaf(1)]);
    assert!(!dangling.is_well_formed());
    let empty_sequence: Tree<u8> = Tree::new(vec![Behave::Sequence { children: vec![] }]);
    assert!(!empty_sequence.is_well_formed());
    let no_nodes: Tree<u8> = Tree::new(vec![]);
    assert!(!no_nodes.is_well_formed());
}
