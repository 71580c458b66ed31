use cplib::manacher::manacher;
use rand::rngs::StdRng;
use rand::{Rng, SeedableRng};

#[test]
fn test_manacher() {
    let mut rng = StdRng::seed_from_u64(10);
    for _ in 0..10 {
        let n = rng.random_range(10..20);
        let s = (0..n).map(|_| rng.random_range(0..3)).collect::<Vec<i32>>();
        let naive = {
            let mut ret = vec![0; n];
            for i in 0..n {
                let mut j = 0;
                while j <= i && i + j < n && s[i - j] == s[i + j] {
                    j += 1;
                }
                ret[i] = j;
            }
            ret
        };
        let ret = manacher(&s);
        assert_eq!(naive, ret);
    }
}

#[test]
fn manacher_known_values() {
    assert_eq!(manacher(&['a', 'b', 'a', 'b', 'a']), vec![1, 2, 3, 2, 1]);
    assert_eq!(manacher::<u8>(&[]), Vec::<usize>::new());
    assert_eq!(manacher(&[7]), vec![1]);
}
