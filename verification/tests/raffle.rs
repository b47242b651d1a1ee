use tenk::error::MintError;
use tenk::raffle::Raffle;

#[test]
fn draw_takes_the_picked_place_and_moves_the_last_in() {
    let mut pool = Raffle::new(5);
    assert_eq!(pool.len(), 5);
    assert_eq!(pool.size(), 5);
    // 7 % 5 == 2: number 2 leaves, number 4 takes its place.
    assert_eq!(pool.draw(7), Ok(2));
    assert_eq!(pool.len(), 4);
    // 6 % 4 == 2: the place now holds number 4.
    assert_eq!(pool.draw(6), Ok(4));
    // 3 % 3 == 0.
    assert_eq!(pool.draw(3), Ok(0));
    // Left: 3 in place 0, 1 in place 1.
    assert_eq!(pool.draw(0), Ok(3));
    assert_eq!(pool.draw(u64::MAX), Ok(1));
    assert_eq!(pool.len(), 0);
    assert!(pool.is_empty());
    assert_eq!(pool.drawn_count(), 5);
    assert_eq!(pool.size(), 5);
}

#[test]
fn last_place_is_drawn_without_a_move() {
    let mut pool = Raffle::new(3);
    assert_eq!(pool.draw(2), Ok(2));
    assert_eq!(pool.draw(1), Ok(1));
    assert_eq!(pool.draw(0), Ok(0));
}

#[test]
fn every_number_comes_out_once() {
    let size: u32 = 257;
    let mut pool = Raffle::new(size);
    let mut seen = vec![false; size as usize];
    let mut random: u64 = 0x9e37_79b9_7f4a_7c15;
    let mut count: u32 = 0;
    while count < size {
        random = random.wrapping_mul(6364136223846793005).wrapping_add(1442695040888963407);
        let id = pool.draw(random).unwrap();
        assert!(id < size);
        assert!(!seen[id as usize]);
        seen[id as usize] = true;
        count += 1;
        assert_eq!(pool.len(), size - count);
        assert_eq!(pool.drawn_count(), count);
    }
    assert!(seen.iter().all(|s| *s));
    assert_eq!(pool.draw(random), Err(MintError::PoolExhausted));
    assert_eq!(pool.draw(0), Err(MintError::PoolExhausted));
    assert_eq!(pool.len(), 0);
}

#[test]
fn same_random_number_still_gives_different_numbers() {
    let mut pool = Raffle::new(4);
    assert_eq!(pool.draw(5), Ok(1));
    assert_eq!(pool.draw(5), Ok(2));
    assert_eq!(pool.draw(5), Ok(3));
    assert_eq!(pool.draw(5), Ok(0));
    assert_eq!(pool.draw(5), Err(MintError::PoolExhausted));
}

#[test]
fn empty_pool_gives_nothing() {
    let mut pool = Raffle::new(0);
    assert!(pool.is_empty());
    assert_eq!(pool.size(), 0);
    assert_eq!(pool.draw(9), Err(MintError::PoolExhausted));
    assert_eq!(pool.drawn_count(), 0);
}

#[test]
fn resize_gives_a_new_pool() {
    let mut pool = Raffle::new(4);
    assert_eq!(pool.draw(0), Ok(0));
    assert_eq!(pool.draw(0), Ok(3));
    assert_eq!(pool.resize(6), Ok(()));
    assert_eq!(pool.size(), 6);
    assert_eq!(pool.len(), 6);
    assert_eq!(pool.drawn_count(), 0);
    assert_eq!(pool.draw(0), Ok(0));
    assert_eq!(pool.draw(0), Ok(5));
}

#[test]
fn resize_to_the_drawn_count_is_allowed() {
    let mut pool = Raffle::new(4);
    assert_eq!(pool.draw(1), Ok(1));
    assert_eq!(pool.draw(1), Ok(3));
    assert_eq!(pool.resize(2), Ok(()));
    assert_eq!(pool.len(), 2);
}

#[test]
fn resize_below_the_drawn_count_is_refused() {
    let mut pool = Raffle::new(4);
    assert_eq!(pool.draw(1), Ok(1));
    assert_eq!(pool.draw(1), Ok(3));
    assert_eq!(pool.resize(1), Err(MintError::InvalidResize));
    assert_eq!(pool.size(), 4);
    assert_eq!(pool.len(), 2);
    assert_eq!(pool.drawn_count(), 2);
    // The pool goes on as before: 0 and 2 are left.
    assert_eq!(pool.draw(0), Ok(0));
    assert_eq!(pool.draw(0), Ok(2));
}
