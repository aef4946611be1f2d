use layout_optimizer::keyboard::key::KeycodeKey;
use layout_optimizer::keyboard::layout::Layout;
use layout_optimizer::keyboard::LayoutPosition;
use layout_optimizer::optimizer::search::{Phase, Progress};
use layout_optimizer::optimizer::selection::{
    count_survivors, offspring, plan_breeding, rank, select, Elite, Mutation,
};
use layout_optimizer::text_processor::keycode::Keycode;
use rand::rngs::StdRng;
use rand::SeedableRng;

#[test]
fn candidates_are_ranked_by_score_then_number() {
    assert_eq!(rank(&vec![30, 10, 20]), vec![1, 2, 0]);
    assert_eq!(rank(&vec![5, 5, 1, 5, 0, 1]), vec![4, 2, 5, 0, 1, 3]);
    assert_eq!(rank(&vec![]), Vec::<usize>::new());
    assert_eq!(rank(&vec![7]), vec![0]);
    assert_eq!(rank(&vec![u64::MAX, 0, u64::MAX]), vec![1, 0, 2]);
}

#[test]
fn ranking_agrees_with_a_stable_sort() {
    let mut seed: u64 = 12345;
    for n in 0..40 {
        let mut scores = vec![];
        for _ in 0..n {
            seed = seed.wrapping_mul(6364136223846793005).wrapping_add(1442695040888963407);
            scores.push((seed >> 33) % 7);
        }
        let mut expected: Vec<usize> = (0..n).collect();
        expected.sort_by_key(|i| scores[*i]);
        assert_eq!(rank(&scores), expected);
    }
}

#[test]
fn one_survives_at_least_and_no_more_than_there_are() {
    assert_eq!(count_survivors(10, 0), 1);
    assert_eq!(count_survivors(10, 1), 1);
    assert_eq!(count_survivors(10, 4), 4);
    assert_eq!(count_survivors(10, 10), 10);
    assert_eq!(count_survivors(10, 11), 10);
    assert_eq!(count_survivors(0, 3), 0);
    assert_eq!(count_survivors(0, 0), 0);
}

#[test]
fn the_best_are_selected() {
    let scores = vec![40, 10, 30, 10, 20];
    assert_eq!(select(&scores, 3), vec![1, 3, 4]);
    assert_eq!(select(&scores, 0), vec![1]);
    assert_eq!(select(&scores, 9), vec![1, 3, 4, 2, 0]);
    assert_eq!(select(&vec![], 2), Vec::<usize>::new());
}

fn layout(text: &str) -> Layout<1, 2> {
    Layout::<1, 2>::try_from(text).unwrap()
}

#[test]
fn the_best_score_on_record_never_rises() {
    let a = layout("___Layer 0___\nA_10 A_10");
    let b = layout("___Layer 0___\nB_10 B_10");
    let c = layout("___Layer 0___\nC_10 C_10");
    let mut elite = Elite::new(a.clone(), 50);
    assert_eq!(elite.score(), 50);
    assert_eq!(*elite.layout(), a);
    let mut last = elite.score();
    for (offered, score, taken) in
        [(&b, 60, false), (&b, 50, false), (&b, 49, true), (&c, 70, false), (&c, 0, true), (&a, 0, false)]
    {
        assert_eq!(elite.offer(offered, score), taken);
        assert!(elite.score() <= last);
        assert_eq!(elite.score(), last.min(score));
        if taken {
            assert_eq!(elite.layout(), offered);
        }
        last = elite.score();
    }
    assert_eq!(*elite.layout(), c);
    assert_eq!(elite.score(), 0);
}

#[test]
fn a_child_differs_from_its_parent_by_one_change() {
    let mut rng = StdRng::seed_from_u64(2);
    let parent = Layout::<2, 3>::try_from("___Layer 0___\nA_10 B_10 C_10\nD_10 E_00 SFT_10").unwrap();
    let candidates = vec![Keycode::_1, Keycode::_2];
    for kind in [Mutation::Swap, Mutation::Replace] {
        for _ in 0..30 {
            let child = offspring(&parent, kind, &mut rng, &candidates).unwrap();
            let mut differing = 0;
            for r in 0..2 {
                for c in 0..3 {
                    let p = LayoutPosition { layer_index: 0, row_index: r, col_index: c };
                    let old: KeycodeKey = parent.get(&p).unwrap();
                    let new: KeycodeKey = child.get(&p).unwrap();
                    assert_eq!(old.moveable, new.moveable);
                    assert_eq!(old.symmetric, new.symmetric);
                    if old != new {
                        differing += 1;
                        assert!(old.moveable);
                        if kind == Mutation::Replace {
                            assert!(candidates.contains(&new.value));
                        }
                    }
                }
            }
            match kind {
                Mutation::Swap => assert_eq!(differing, 2),
                Mutation::Replace => assert_eq!(differing, 1),
            }
        }
    }
    assert_eq!(parent.get(&LayoutPosition::for_layer(1, 1)).unwrap().value, Keycode::_E);
}

#[test]
fn a_search_of_two_generations() {
    let mut progress = Progress::start();
    let mut seen = vec![(progress.phase, progress.generation)];
    while !progress.is_over() {
        progress = progress.advance(2);
        seen.push((progress.phase, progress.generation));
    }
    assert_eq!(
        seen,
        vec![
            (Phase::Initialize, 0),
            (Phase::Evaluate, 0),
            (Phase::Select, 0),
            (Phase::Reproduce, 0),
            (Phase::Evaluate, 1),
            (Phase::Select, 1),
            (Phase::Reproduce, 1),
            (Phase::Terminate, 2)
        ]
    );
    assert_eq!(progress.advance(2), progress);
}

#[test]
fn a_search_without_generations_is_over_at_once() {
    let progress = Progress::start().advance(0);
    assert_eq!(progress, Progress { phase: Phase::Terminate, generation: 0 });
    let one = Progress::start().advance(1).advance(1).advance(1).advance(1);
    assert_eq!(one, Progress { phase: Phase::Terminate, generation: 1 });
}

#[test]
fn children_are_bred_from_the_parents_in_turn() {
    assert_eq!(plan_breeding(2, 7), vec![0, 1, 0, 1, 0]);
    assert_eq!(plan_breeding(1, 4), vec![0, 0, 0]);
    assert_eq!(plan_breeding(3, 4), vec![0]);
    assert_eq!(plan_breeding(3, 3), Vec::<usize>::new());
    assert_eq!(plan_breeding(5, 3), Vec::<usize>::new());
    assert_eq!(plan_breeding(0, 3), Vec::<usize>::new());
}

#[test]
fn a_child_is_a_plain_copy_only_where_nothing_can_change() {
    let mut rng = StdRng::seed_from_u64(6);
    let candidates = vec![Keycode::_1];
    let one_free = Layout::<1, 3>::try_from("___Layer 0___\nA_10 B_00 C_00").unwrap();
    assert_eq!(offspring(&one_free, Mutation::Swap, &mut rng, &candidates).unwrap(), one_free);
    assert_ne!(offspring(&one_free, Mutation::Replace, &mut rng, &candidates).unwrap(), one_free);
    assert_eq!(offspring(&one_free, Mutation::Replace, &mut rng, &vec![]).unwrap(), one_free);
    let fixed = Layout::<1, 3>::try_from("___Layer 0___\nA_00 B_00 C_00").unwrap();
    assert_eq!(offspring(&fixed, Mutation::Replace, &mut rng, &candidates).unwrap(), fixed);
    let two_free = Layout::<1, 3>::try_from("___Layer 0___\nA_10 B_00 C_10").unwrap();
    let swapped = Layout::<1, 3>::try_from("___Layer 0___\nC_10 B_00 A_10").unwrap();
    for _ in 0..20 {
        assert_eq!(offspring(&two_free, Mutation::Swap, &mut rng, &candidates).unwrap(), swapped);
    }
}
