use bracket::rounds::rounds_needed;
use bracket::{Bracket, BracketError};

fn names(list: &[&str]) -> Vec<String> {
    list.iter().map(|name| name.to_string()).collect()
}

fn numbered(count: usize) -> Vec<String> {
    (0..count).map(|i| format!("p{}", i)).collect()
}

fn leaf(name: &str) -> Bracket {
    Bracket { name: name.to_string(), level: 0, left: None, right: None }
}

fn slot(level: i32, left: Bracket, right: Option<Bracket>) -> Bracket {
    Bracket {
        name: "◈".to_string(),
        level,
        left: Some(Box::new(left)),
        right: right.map(Box::new),
    }
}

fn count_slots(node: &Bracket) -> usize {
    1 + node.left.as_ref().map_or(0, |l| count_slots(l))
        + node.right.as_ref().map_or(0, |r| count_slots(r))
}

fn count_byes(node: &Bracket) -> usize {
    let here = if node.left.is_some() && node.right.is_none() { 1 } else { 0 };
    here + node.left.as_ref().map_or(0, |l| count_byes(l))
        + node.right.as_ref().map_or(0, |r| count_byes(r))
}

fn collect_level<'a>(node: &'a Bracket, level: i32, found: &mut Vec<&'a Bracket>) {
    if node.level == level {
        found.push(node);
        return;
    }
    if let Some(left) = &node.left {
        collect_level(left, level, found);
    }
    if let Some(right) = &node.right {
        collect_level(right, level, found);
    }
}

fn at_level(node: &Bracket, level: i32) -> Vec<&Bracket> {
    let mut found = Vec::new();
    collect_level(node, level, &mut found);
    found
}

fn erase(node: &Bracket) -> Bracket {
    Bracket {
        name: String::new(),
        level: node.level,
        left: node.left.as_ref().map(|l| Box::new(erase(l))),
        right: node.right.as_ref().map(|r| Box::new(erase(r))),
    }
}

fn doublings(count: usize) -> i32 {
    let mut rounds = 1;
    let mut reach = 1usize;
    while reach < count {
        reach *= 2;
        rounds += 1;
    }
    rounds
}

#[test]
fn empty_list_is_refused() {
    assert_eq!(Bracket::from(&Vec::new()), Err(BracketError::EmptyInput));
}

#[test]
fn single_participant_is_the_whole_bracket() {
    let built = Bracket::from(&names(&["Solo"])).unwrap();
    assert_eq!(built, leaf("Solo"));
}

#[test]
fn two_participants_meet_in_one_match() {
    let built = Bracket::from(&names(&["A", "B"])).unwrap();
    assert_eq!(built, slot(1, leaf("A"), Some(leaf("B"))));
}

#[test]
fn three_participants_last_one_advances_alone() {
    let built = Bracket::from(&names(&["A", "B", "C"])).unwrap();
    let first_match = slot(1, leaf("A"), Some(leaf("B")));
    let bye = slot(1, leaf("C"), None);
    assert_eq!(built, slot(2, first_match, Some(bye)));
    let round0: Vec<&str> = at_level(&built, 0).iter().map(|n| n.name.as_str()).collect();
    assert_eq!(round0, vec!["A", "B", "C"]);
    assert_eq!(at_level(&built, 1).len(), 2);
    assert_eq!(at_level(&built, 2).len(), 1);
    assert_eq!(count_slots(&built), 6);
    assert_eq!(count_byes(&built), 1);
}

#[test]
fn four_participants_make_a_perfect_bracket() {
    let built = Bracket::from(&names(&["A", "B", "C", "D"])).unwrap();
    let upper = slot(1, leaf("A"), Some(leaf("B")));
    let lower = slot(1, leaf("C"), Some(leaf("D")));
    assert_eq!(built, slot(2, upper, Some(lower)));
    assert_eq!(built.level, 2);
    assert_eq!(count_byes(&built), 0);
    assert_eq!(count_slots(&built), 7);
}

#[test]
fn five_participants_first_slot_advances_alone_into_round_two() {
    let built = Bracket::from(&names(&["A", "B", "C", "D", "E"])).unwrap();
    let ab = slot(1, leaf("A"), Some(leaf("B")));
    let cd = slot(1, leaf("C"), Some(leaf("D")));
    let e = slot(1, leaf("E"), None);
    let head = slot(2, ab, None);
    let tail = slot(2, cd, Some(e));
    assert_eq!(built, slot(3, head, Some(tail)));
    assert_eq!(count_byes(&built), 2);
}

#[test]
fn six_participants_first_slot_advances_alone_into_round_two() {
    let built = Bracket::from(&names(&["A", "B", "C", "D", "E", "F"])).unwrap();
    let ab = slot(1, leaf("A"), Some(leaf("B")));
    let cd = slot(1, leaf("C"), Some(leaf("D")));
    let ef = slot(1, leaf("E"), Some(leaf("F")));
    let head = slot(2, ab, None);
    let tail = slot(2, cd, Some(ef));
    assert_eq!(built, slot(3, head, Some(tail)));
}

#[test]
fn nine_participants_bye_at_head_of_round_two_and_tail_of_others() {
    let built = Bracket::from(&numbered(9)).unwrap();
    assert_eq!(built.level, 4);
    let round1 = at_level(&built, 1);
    assert_eq!(round1.len(), 5);
    for (i, node) in round1.iter().enumerate() {
        assert_eq!(node.right.is_none(), i == 4);
    }
    let round2 = at_level(&built, 2);
    assert_eq!(round2.len(), 3);
    for (i, node) in round2.iter().enumerate() {
        assert_eq!(node.right.is_none(), i == 0);
    }
    let round3 = at_level(&built, 3);
    assert_eq!(round3.len(), 2);
    for (i, node) in round3.iter().enumerate() {
        assert_eq!(node.right.is_none(), i == 1);
    }
    assert!(built.right.is_some());
}

#[test]
fn round_count_is_the_logarithm_rounded_up_plus_one() {
    let expected = [
        (1usize, 1),
        (2, 2),
        (3, 3),
        (4, 3),
        (5, 4),
        (7, 4),
        (8, 4),
        (9, 5),
        (16, 5),
        (17, 6),
        (100, 8),
    ];
    for (count, rounds) in expected {
        let built = Bracket::from(&numbered(count)).unwrap();
        assert_eq!(built.level + 1, rounds);
        assert_eq!(doublings(count), rounds);
        assert_eq!(rounds_needed(count), rounds as usize);
    }
}

#[test]
fn round_zero_holds_the_participants_in_order() {
    for count in 1..40usize {
        let list = numbered(count);
        let built = Bracket::from(&list).unwrap();
        let round0: Vec<String> = at_level(&built, 0).iter().map(|n| n.name.clone()).collect();
        assert_eq!(round0, list);
        for node in at_level(&built, 0) {
            assert!(node.left.is_none() && node.right.is_none());
        }
    }
}

#[test]
fn every_round_is_the_children_of_the_next() {
    for count in 1..40usize {
        let built = Bracket::from(&numbered(count)).unwrap();
        assert_eq!(at_level(&built, built.level).len(), 1);
        for level in 1..=built.level {
            let mut children: Vec<&Bracket> = Vec::new();
            for node in at_level(&built, level) {
                children.push(node.left.as_ref().unwrap());
                if let Some(right) = &node.right {
                    children.push(right);
                }
            }
            let below = at_level(&built, level - 1);
            assert_eq!(children.len(), below.len());
            for (child, slot) in children.iter().zip(below.iter()) {
                assert_eq!(*child, *slot);
            }
            assert_eq!((below.len() + 1) / 2, at_level(&built, level).len());
        }
    }
}

#[test]
fn powers_of_two_have_no_bye() {
    for exponent in 0..8u32 {
        let built = Bracket::from(&numbered(1usize << exponent)).unwrap();
        assert_eq!(count_byes(&built), 0);
        assert_eq!(count_slots(&built), (2usize << exponent) - 1);
        assert_eq!(built.level, exponent as i32);
    }
}

#[test]
fn byes_stand_at_the_head_of_round_two_or_the_tail_of_a_round() {
    for count in 1..70usize {
        let built = Bracket::from(&numbered(count)).unwrap();
        for level in 1..=built.level {
            let slots = at_level(&built, level);
            let below = at_level(&built, level - 1).len();
            let place = if level == 2 { 0 } else { slots.len() - 1 };
            for (i, node) in slots.iter().enumerate() {
                assert_eq!(node.right.is_none(), below % 2 == 1 && i == place);
            }
        }
    }
}

#[test]
fn built_brackets_are_well_formed() {
    for count in 1..40usize {
        let built = Bracket::from(&numbered(count)).unwrap();
        assert!(built.is_well_formed());
    }
}

#[test]
fn well_formedness_is_checked_slot_by_slot() {
    assert!(leaf("A").is_well_formed());
    assert!(slot(1, leaf("A"), None).is_well_formed());
    assert!(slot(1, leaf("A"), Some(leaf("B"))).is_well_formed());
    assert!(!slot(2, leaf("A"), Some(leaf("B"))).is_well_formed());
    assert!(!slot(0, leaf("A"), None).is_well_formed());
    let mut stray = leaf("A");
    stray.level = 1;
    assert!(!stray.is_well_formed());
    let mut lopsided = leaf("A");
    lopsided.right = Some(Box::new(leaf("B")));
    assert!(!lopsided.is_well_formed());
    let uneven = slot(2, slot(1, leaf("A"), None), Some(leaf("B")));
    assert!(!uneven.is_well_formed());
}

#[test]
fn shape_depends_on_the_count_alone() {
    for count in 1..20usize {
        let first = Bracket::from(&numbered(count)).unwrap();
        let mut reversed = numbered(count);
        reversed.reverse();
        let second = Bracket::from(&reversed).unwrap();
        assert_eq!(erase(&first), erase(&second));
    }
}

#[test]
fn clone_copies_the_whole_tree() {
    let built = Bracket::from(&numbered(11)).unwrap();
    assert_eq!(built.clone(), built);
}

#[test]
fn error_has_a_message() {
    assert_eq!(
        BracketError::EmptyInput.message(),
        "no participants: a bracket needs at least one name"
    );
}

#[test]
fn rounds_needed_at_the_edges() {
    assert_eq!(rounds_needed(0), 1);
    assert_eq!(rounds_needed(1), 1);
    assert_eq!(rounds_needed(2), 2);
    assert_eq!(rounds_needed(1023), 11);
    assert_eq!(rounds_needed(1024), 11);
    assert_eq!(rounds_needed(1025), 12);
    assert_eq!(rounds_needed(usize::MAX), usize::BITS as usize + 1);
}
