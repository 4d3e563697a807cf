use rand::Rng;
use rand_xoshiro::rand_core::RngCore;
use rand_xoshiro::rand_core::SeedableRng;
use rand_xoshiro::Xoshiro256StarStar;
use variant::merge::MergeVariant;
use variant::merge::VariantChain;
use variant::tree_rng::TreeRng;
use variant::variant::Variant;

/// A description that always hands out the same letter and leaves the source
/// alone.
struct Always(char);

impl Variant for Always {
    type Item = char;

    fn next(&self, _rng: &mut TreeRng) -> char {
        self.0
    }
}

fn seed_of(byte: u8) -> [u8; 32] {
    let mut seed = [byte; 32];
    seed[0] = byte.wrapping_add(1);
    seed
}

fn count(drawn: &[char], letter: char) -> usize {
    drawn.iter().filter(|c| **c == letter).count()
}

#[test]
fn chain_of_one_and_three_draws_in_proportion() {
    let chain = Always('a').merge(1).with(Always('b'), 3);
    let mut rng = TreeRng::from_seed(seed_of(1));
    let mut drawn = Vec::new();
    for _ in 0..8000 {
        drawn.push(chain.next(&mut rng));
    }
    let a = count(&drawn, 'a');
    let b = count(&drawn, 'b');
    assert_eq!(a + b, 8000);
    assert!(a > 1800 && a < 2200, "a was drawn {} times", a);
    assert!(b > 5800 && b < 6200, "b was drawn {} times", b);
}

#[test]
fn chain_of_three_draws_in_proportion() {
    let chain = Always('a').merge(1).with(Always('b'), 2).with(Always('c'), 5);
    let mut rng = TreeRng::from_seed(seed_of(2));
    let mut drawn = Vec::new();
    for _ in 0..8000 {
        drawn.push(chain.next(&mut rng));
    }
    let a = count(&drawn, 'a');
    let b = count(&drawn, 'b');
    let c = count(&drawn, 'c');
    assert_eq!(a + b + c, 8000);
    assert!(a > 850 && a < 1150, "a was drawn {} times", a);
    assert!(b > 1800 && b < 2200, "b was drawn {} times", b);
    assert!(c > 4800 && c < 5200, "c was drawn {} times", c);
}

#[test]
fn chain_selects_by_the_value_drawn_below_the_total() {
    let chain = Always('a').merge(2).with(Always('b'), 3).with(Always('c'), 1);
    let mut rng = TreeRng::from_seed(seed_of(3));
    let mut model = Xoshiro256StarStar::from_seed(seed_of(3));
    for _ in 0..500 {
        let value: u64 = model.gen_range(0u64, 6u64);
        let expected = if value < 2 {
            'a'
        } else if value < 5 {
            'b'
        } else {
            'c'
        };
        assert_eq!(chain.next(&mut rng), expected);
    }
    assert_eq!(rng.next_u64(), model.next_u64());
}

#[test]
fn next_chain_selects_the_alternative_of_the_share() {
    let chain = Always('a').merge(2).with(Always('b'), 3).with(Always('c'), 1);
    let mut rng = TreeRng::from_seed(seed_of(4));
    let expected = ['a', 'a', 'b', 'b', 'b', 'c'];
    for state in 0..6u64 {
        assert_eq!(chain.next_chain(state, &mut rng), expected[state as usize]);
    }
}

#[test]
fn next_chain_leaves_the_source_to_the_alternative() {
    let chain = Always('a').merge(1).with(Always('b'), 1);
    let mut rng = TreeRng::from_seed(seed_of(5));
    let mut twin = TreeRng::from_seed(seed_of(5));
    chain.next_chain(0, &mut rng);
    chain.next_chain(1, &mut rng);
    assert_eq!(rng.next_u64(), twin.next_u64());
}

#[test]
fn total_weight_sums_the_weights() {
    let one = Always('a').merge(4);
    assert_eq!(one.total_weight(), 4);
    let three = one.with(Always('b'), 0).with(Always('c'), 7);
    assert_eq!(three.total_weight(), 11);
}

#[test]
fn chain_of_one_alternative_does_not_touch_the_source() {
    let chain: MergeVariant<Always, ()> = Always('x').merge(5);
    let mut rng = TreeRng::from_seed(seed_of(6));
    let mut twin = TreeRng::from_seed(seed_of(6));
    for _ in 0..10 {
        assert_eq!(chain.next(&mut rng), 'x');
    }
    assert_eq!(rng.next_u64(), twin.next_u64());
}

#[test]
fn chain_of_one_alternative_with_no_weight_still_draws() {
    let chain = Always('x').merge(0);
    let mut rng = TreeRng::from_seed(seed_of(6));
    assert_eq!(chain.next(&mut rng), 'x');
    assert_eq!(chain.next_chain(0, &mut rng), 'x');
}

#[test]
fn alternative_without_weight_is_never_drawn() {
    let chain = Always('a').merge(1).with(Always('b'), 0).with(Always('c'), 1);
    let mut rng = TreeRng::from_seed(seed_of(7));
    let mut drawn = Vec::new();
    for _ in 0..2000 {
        drawn.push(chain.next(&mut rng));
    }
    assert_eq!(count(&drawn, 'b'), 0);
    assert!(count(&drawn, 'a') > 800);
    assert!(count(&drawn, 'c') > 800);
}

#[test]
fn first_alternative_without_weight_is_never_drawn() {
    let chain = Always('a').merge(0).with(Always('b'), 2);
    let mut rng = TreeRng::from_seed(seed_of(8));
    for _ in 0..500 {
        assert_eq!(chain.next(&mut rng), 'b');
    }
}

#[test]
fn chain_draw_takes_one_value_then_the_alternative_draws() {
    let words = variant::variant::FnVariant::from(|rng: &mut TreeRng| rng.next_u64());
    let more = variant::variant::FnVariant::from(|rng: &mut TreeRng| rng.next_u64());
    let chain = words.merge(1).with(more, 1);
    let mut rng = TreeRng::from_seed(seed_of(9));
    let mut model = Xoshiro256StarStar::from_seed(seed_of(9));
    for _ in 0..20 {
        let _value: u64 = model.gen_range(0u64, 2u64);
        assert_eq!(chain.next(&mut rng), model.next_u64());
    }
}

#[test]
fn equal_seeds_give_equal_choices() {
    let chain = Always('a').merge(10).with(Always('b'), 20).with(Always('c'), 30);
    let mut first = TreeRng::from_seed(seed_of(10));
    let mut second = TreeRng::from_seed(seed_of(10));
    for _ in 0..200 {
        assert_eq!(chain.next(&mut first), chain.next(&mut second));
    }
}
