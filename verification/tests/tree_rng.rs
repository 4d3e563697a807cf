use rand::Rng;
use rand_xoshiro::rand_core::RngCore;
use rand_xoshiro::rand_core::SeedableRng;
use rand_xoshiro::Xoshiro256StarStar;
use variant::tree_rng::FillError;
use variant::tree_rng::Split;
use variant::tree_rng::TreeRng;

/// The seed whose words are 1, 2, 3 and 4.
fn counting_seed() -> [u8; 32] {
    let mut seed = [0u8; 32];
    seed[0] = 1;
    seed[8] = 2;
    seed[16] = 3;
    seed[24] = 4;
    seed
}

fn seed_of(byte: u8) -> [u8; 32] {
    let mut seed = [byte; 32];
    seed[0] = byte.wrapping_add(1);
    seed
}

fn words(rng: &mut TreeRng, count: usize) -> Vec<u64> {
    let mut out = Vec::new();
    for _ in 0..count {
        out.push(rng.next_u64());
    }
    out
}

#[test]
fn test() {
    let mut rng = TreeRng::from_seed(counting_seed());
    let [mut left, mut right]: [TreeRng; 2] = rng.split();
    assert_ne!(left.next_u64(), right.next_u64());
}

#[test]
fn next_u64_gives_the_published_sequence() {
    let mut rng = TreeRng::from_seed(counting_seed());
    let expected: [u64; 10] = [
        11520,
        0,
        1509978240,
        1215971899390074240,
        1216172134540287360,
        607988272756665600,
        16172922978634559625,
        8476171486693032832,
        10595114339597558777,
        2904607092377533576,
    ];
    for e in expected {
        assert_eq!(rng.next_u64(), e);
    }
}

#[test]
fn next_u32_is_the_low_half_of_the_next_word() {
    let mut rng = TreeRng::from_seed(counting_seed());
    assert_eq!(rng.next_u32(), 11520);
    assert_eq!(rng.next_u32(), 0);
    assert_eq!(rng.next_u32(), 1509978240);
    assert_eq!(rng.next_u32(), 1215971899390074240u64 as u32);
    // The state moved on by one word per call.
    assert_eq!(rng.next_u64(), 1216172134540287360);
}

#[test]
fn fill_bytes_writes_the_words_low_byte_first() {
    let mut rng = TreeRng::from_seed(counting_seed());
    let mut buffer = [0xffu8; 16];
    rng.fill_bytes(&mut buffer);
    let mut expected = Vec::new();
    expected.extend_from_slice(&11520u64.to_le_bytes());
    expected.extend_from_slice(&0u64.to_le_bytes());
    assert_eq!(buffer.to_vec(), expected);
    assert_eq!(rng.next_u64(), 1509978240);
}

#[test]
fn fill_bytes_handles_a_short_tail() {
    let mut rng = TreeRng::from_seed(counting_seed());
    let mut buffer = [0xffu8; 3];
    rng.fill_bytes(&mut buffer);
    assert_eq!(buffer, [0x00, 0x2d, 0x00]);
    assert_eq!(rng.next_u64(), 0);
}

#[test]
fn fill_bytes_on_an_empty_buffer_draws_nothing() {
    let mut rng = TreeRng::from_seed(counting_seed());
    let mut buffer: [u8; 0] = [];
    rng.fill_bytes(&mut buffer);
    assert_eq!(rng.next_u64(), 11520);
}

#[test]
fn try_fill_bytes_succeeds_and_agrees_with_fill_bytes() {
    let mut first = TreeRng::from_seed(seed_of(9));
    let mut second = TreeRng::from_seed(seed_of(9));
    let mut a = [0u8; 29];
    let mut b = [0u8; 29];
    first.fill_bytes(&mut a);
    let outcome: Result<(), FillError> = second.try_fill_bytes(&mut b);
    assert!(outcome.is_ok());
    assert_eq!(a, b);
    assert_ne!(a, [0u8; 29]);
    assert_eq!(first.next_u64(), second.next_u64());
}

#[test]
fn the_generator_is_the_outside_one() {
    let mut ours = TreeRng::from_seed(seed_of(3));
    let mut theirs = Xoshiro256StarStar::from_seed(seed_of(3));
    for _ in 0..50 {
        assert_eq!(ours.next_u64(), theirs.next_u64());
    }
    assert_eq!(ours.next_u32(), theirs.next_u32());
    let mut a = [0u8; 13];
    let mut b = [0u8; 13];
    ours.fill_bytes(&mut a);
    theirs.fill_bytes(&mut b);
    assert_eq!(a, b);
}

#[test]
fn an_all_zero_seed_still_gives_words() {
    let mut rng = TreeRng::from_seed([0u8; 32]);
    let drawn = words(&mut rng, 4);
    assert!(drawn.iter().any(|w| *w != 0));
}

#[test]
fn different_seeds_give_different_words() {
    let mut first = TreeRng::from_seed(seed_of(1));
    let mut second = TreeRng::from_seed(seed_of(2));
    assert_ne!(words(&mut first, 8), words(&mut second, 8));
}

#[test]
fn equal_seeds_give_equal_outputs_through_the_same_calls() {
    for byte in [0u8, 1, 77, 255] {
        let mut first = TreeRng::from_seed(seed_of(byte));
        let mut second = TreeRng::from_seed(seed_of(byte));
        assert_eq!(first.next_u32(), second.next_u32());
        assert_eq!(first.next_u64(), second.next_u64());
        let mut a = [0u8; 21];
        let mut b = [0u8; 21];
        first.fill_bytes(&mut a);
        second.fill_bytes(&mut b);
        assert_eq!(a, b);
        let mut a_children: [TreeRng; 3] = first.split();
        let mut b_children: [TreeRng; 3] = second.split();
        for i in 0..3 {
            assert_eq!(words(&mut a_children[i], 20), words(&mut b_children[i], 20));
        }
        assert_eq!(words(&mut first, 20), words(&mut second, 20));
    }
}

#[test]
fn split_children_and_parent_all_differ() {
    for byte in [0u8, 5, 200] {
        let mut parent = TreeRng::from_seed(seed_of(byte));
        let mut children: [TreeRng; 4] = parent.split();
        let mut streams: Vec<Vec<u64>> = Vec::new();
        for child in children.iter_mut() {
            streams.push(words(child, 1000));
        }
        streams.push(words(&mut parent, 1000));
        for i in 0..streams.len() {
            for j in (i + 1)..streams.len() {
                assert_ne!(streams[i], streams[j]);
            }
        }
    }
}

#[test]
fn split_jumps_then_seeds_each_child_from_the_jumped_state() {
    let mut parent = TreeRng::from_seed(seed_of(42));
    let mut children: [TreeRng; 3] = parent.split();

    let mut model = Xoshiro256StarStar::from_seed(seed_of(42));
    for child in children.iter_mut() {
        model.jump();
        let mut seed = [0u8; 32];
        model.fill_bytes(&mut seed);
        let mut expected = Xoshiro256StarStar::from_seed(seed);
        for _ in 0..10 {
            assert_eq!(child.next_u64(), expected.next_u64());
        }
    }
    // The parent goes on from where the last extraction left it.
    for _ in 0..10 {
        assert_eq!(parent.next_u64(), model.next_u64());
    }
}

#[test]
fn split_advances_the_parent() {
    let mut split_one = TreeRng::from_seed(seed_of(8));
    let mut untouched = TreeRng::from_seed(seed_of(8));
    let _children: [TreeRng; 1] = split_one.split();
    assert_ne!(words(&mut split_one, 4), words(&mut untouched, 4));
}

#[test]
fn split_into_no_children_leaves_the_parent_alone() {
    let mut split_none = TreeRng::from_seed(seed_of(8));
    let mut untouched = TreeRng::from_seed(seed_of(8));
    let children: [TreeRng; 0] = split_none.split();
    assert_eq!(children.len(), 0);
    assert_eq!(words(&mut split_none, 4), words(&mut untouched, 4));
}

#[test]
fn split_children_can_be_split_again() {
    let mut root = TreeRng::from_seed(seed_of(1));
    let [mut left, mut right]: [TreeRng; 2] = root.split();
    let [mut ll, mut lr]: [TreeRng; 2] = left.split();
    let [mut rl, mut rr]: [TreeRng; 2] = right.split();
    let streams = [
        words(&mut ll, 100),
        words(&mut lr, 100),
        words(&mut rl, 100),
        words(&mut rr, 100),
    ];
    for i in 0..4 {
        for j in (i + 1)..4 {
            assert_ne!(streams[i], streams[j]);
        }
    }
}

#[test]
fn a_ranged_draw_stays_below_its_bound() {
    let mut model = Xoshiro256StarStar::from_seed(seed_of(4));
    for _ in 0..1000 {
        let drawn: u64 = model.gen_range(0u64, 4u64);
        assert!(drawn < 4);
    }
}
