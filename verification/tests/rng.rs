use squiggle::rng::XorShiftRng;

#[test]
fn from_seed_splits_the_seed() {
    let rng = XorShiftRng::from_seed(0x0123456789abcdef);
    assert_eq!(rng, XorShiftRng::new_seeded(0x89abcdef, 0x01234567, 0x97830e05, 0x113ba7bb));
}

#[test]
fn the_stream_is_that_of_xorshift() {
    let mut rng = XorShiftRng::from_seed(1);
    assert_eq!(rng.next_u32(), 0x113bad95);
    assert_eq!(rng.next_u32(), 0x113bafb2);
    assert_eq!(rng.next_u32(), 0x9e4778b6);
    assert_eq!(rng.next_u32(), 0x528d12ba);
}

#[test]
fn a_64_bit_word_is_two_steps() {
    let mut rng = XorShiftRng::from_seed(1);
    assert_eq!(rng.next_u64(), 0x113bad95113bafb2);
    assert_eq!(rng.next_u64(), 0x9e4778b6528d12ba);
    assert_eq!(rng.next_u64(), 0x9e164a7b529c2034);
    let mut other = XorShiftRng::from_seed(0x0123456789abcdef);
    assert_eq!(other.next_u64(), 0xc628d4c6dd3bb919);
    assert_eq!(other.next_u64(), 0x5247779d9e8d0411);
}

#[test]
fn gen_range_is_the_word_modulo_the_width() {
    let mut rng = XorShiftRng::from_seed(7);
    let drawn: Vec<usize> = (0..10).map(|_| rng.gen_range(1, 7)).collect();
    assert_eq!(drawn, vec![5, 5, 1, 1, 5, 4, 4, 4, 1, 5]);
}

#[test]
fn gen_range_stays_in_its_range() {
    let mut rng = XorShiftRng::from_seed(99);
    for high in 1..40usize {
        for _ in 0..50 {
            let r = rng.gen_range(0, high);
            assert!(r < high);
            let s = rng.gen_range(high, 2 * high);
            assert!(high <= s && s < 2 * high);
        }
    }
}

#[test]
fn gen_bool_is_the_lowest_bit() {
    let mut rng = XorShiftRng::from_seed(7);
    let coins: Vec<bool> = (0..10).map(|_| rng.gen_bool()).collect();
    assert_eq!(
        coins,
        vec![true, false, false, false, true, false, true, false, true, false]
    );
}

#[test]
fn gen_words_are_the_next_words() {
    let mut a = XorShiftRng::from_seed(1);
    let mut b = XorShiftRng::from_seed(1);
    let words = a.gen_words(3);
    assert_eq!(words, vec![0x113bad95113bafb2, 0x9e4778b6528d12ba, 0x9e164a7b529c2034]);
    for _ in 0..3 {
        b.next_u64();
    }
    assert_eq!(a, b);
}

#[test]
fn equal_seeds_give_equal_streams() {
    let mut a = XorShiftRng::from_seed(12345);
    let mut b = XorShiftRng::from_seed(12345);
    let mut c = XorShiftRng::from_seed(12346);
    let mut differs = false;
    for _ in 0..100 {
        let x = a.next_u64();
        assert_eq!(x, b.next_u64());
        differs = differs || x != c.next_u64();
    }
    assert!(differs);
}
