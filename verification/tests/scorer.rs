use sweep::kmp::KMPPattern;
use sweep::scorer::{
    fuzzy_scorer, positions_data_size, positions_offset, subseq_ignore_case, substr_scorer, Bonus,
    FuzzyScorer, Positions, PositionsRef, SubstrMatch, SubstrScorer,
};

#[test]
fn score_test_knuth_morris_pratt() {
    let pattern = KMPPattern::new("acat".as_bytes().to_vec());
    assert_eq!(*pattern.table(), vec![0, 0, 1, 0]);

    let pattern = KMPPattern::new("acacagt".as_bytes().to_vec());
    assert_eq!(*pattern.table(), vec![0, 0, 1, 2, 3, 0, 0]);

    let pattern = KMPPattern::new("abcdabd".as_bytes().to_vec());
    assert_eq!(Some(13), pattern.search("abcabcdababcdabcdabde".as_bytes()));

    let pattern = KMPPattern::new("abcabcd".as_bytes().to_vec());
    assert_eq!(*pattern.table(), vec![0, 0, 0, 1, 2, 3, 0]);
}

#[test]
fn scorer_test_knuth_morris_pratt() {
    let pattern = KMPPattern::new("acat".bytes().collect());
    assert_eq!(*pattern.table(), vec![0, 0, 1, 0]);

    let pattern = KMPPattern::new("acacagt".bytes().collect());
    assert_eq!(*pattern.table(), vec![0, 0, 1, 2, 3, 0, 0]);

    let pattern = KMPPattern::new("abcdabd".bytes().collect());
    assert_eq!(Some(13), pattern.search("abcabcdababcdabcdabde".as_bytes()));

    let pattern = KMPPattern::new("abcabcd".bytes().collect());
    assert_eq!(*pattern.table(), vec![0, 0, 0, 1, 2, 3, 0]);
}

#[test]
fn kmp_search_edges() {
    let pattern = KMPPattern::new("ab".chars().collect::<Vec<char>>());
    assert_eq!(pattern.len(), 2);
    assert!(!pattern.is_empty());
    let hay: Vec<char> = "xxab ab".chars().collect();
    assert_eq!(pattern.search(&hay), Some(2));
    let none: Vec<char> = "ba".chars().collect();
    assert_eq!(pattern.search(&none), None);
    let empty = KMPPattern::new(Vec::<char>::new());
    assert!(empty.is_empty());
    assert!(empty.table().is_empty());
}

#[test]
fn score_test_subseq() {
    let subseq = subseq_ignore_case;
    assert!(subseq("one", "On/e"));
    assert!(subseq("one", "w o ne"));
    assert!(!subseq("one", "net"));
    assert!(subseq("", "one"));
}

#[test]
fn scorer_test_subseq() {
    let subseq = FuzzyScorer::subseq;
    let one: Vec<_> = "one".chars().collect();
    let net: Vec<_> = "net".chars().collect();
    let one1: Vec<_> = "on/e".chars().collect();
    let wone: Vec<_> = "w o ne".chars().collect();
    assert!(subseq(&one, &one1));
    assert!(subseq(&one, &wone));
    assert!(!subseq(&one, &net));
    assert!(subseq(&[], &one));
}

fn ps(items: &[usize]) -> Positions {
    match items.iter().max() {
        None => Positions::new(0),
        Some(max) => {
            let mut positions = Positions::new(max + 1);
            positions.extend(items);
            positions
        }
    }
}

#[test]
fn positions() {
    let p = ps(&[1, 15, 67, 300]);
    assert_eq!(format!("{:?}", p.indices()), "[1, 15, 67, 300]".to_string());
    assert_eq!(
        p.iter()
            .into_iter()
            .enumerate()
            .filter_map(|(i, m)| if m { Some(i) } else { None })
            .collect::<Vec<_>>(),
        vec![1, 15, 67, 300]
    );
    assert_eq!(p.data_len(), 38);
    assert!(p.get(1));
    assert!(p.get(15));
    assert!(p.get(67));
    assert!(p.get(300));
}

#[test]
fn positions_set_clear_eq() {
    assert_eq!(positions_data_size(0), 0);
    assert_eq!(positions_data_size(8), 1);
    assert_eq!(positions_data_size(9), 2);
    assert_eq!(positions_offset(10), (1, 4));
    let mut p = Positions::new(16);
    assert!(!p.get(3));
    p.set(3);
    assert!(p.get(3));
    assert!(!p.get(4));
    assert!(!p.get(1000));
    let q = PositionsRef::new_data(vec![8u8, 0, 0, 0]);
    assert!(p.eq(&q));
    assert!(q.eq(&p));
    let r = PositionsRef::new_data(vec![8u8, 1]);
    assert!(!p.eq(&r));
    let copy = p.as_ref();
    assert!(copy.eq(&p));
    p.as_mut().clear();
    assert!(!p.get(3));
    assert!(p.indices().is_empty());
    let mut it = q.into_iter();
    assert_eq!(it.next(), Some(false));
    assert_eq!(it.next(), Some(false));
    assert_eq!(it.next(), Some(false));
    assert_eq!(it.next(), Some(true));
}

#[test]
fn substr_positions() {
    let scorer = SubstrScorer::new("one  ababc".chars().collect());
    let hay: Vec<char> = " one babababcd ".chars().collect();
    match scorer.score_ref(&hay) {
        Some(SubstrMatch::Span { start, end, positions }) => {
            assert_eq!(positions, vec![1, 2, 3, 8, 9, 10, 11, 12]);
            assert_eq!(start, 1);
            assert_eq!(end, 13);
        }
        other => panic!("unexpected {:?}", other),
    }
    let scorer = SubstrScorer::new("o".chars().collect());
    let hay: Vec<char> = "one".chars().collect();
    match scorer.score_ref(&hay) {
        Some(SubstrMatch::Span { positions, .. }) => assert_eq!(positions, vec![0]),
        other => panic!("unexpected {:?}", other),
    }
    let none: Vec<char> = "two".chars().collect();
    assert_eq!(SubstrScorer::new("x".chars().collect()).score_ref(&none), None);
    assert_eq!(SubstrScorer::new("  ".chars().collect()).score_ref(&none), Some(SubstrMatch::Any));
}

#[test]
fn scorers_lowercase_needle() {
    let f = fuzzy_scorer("OnE");
    assert_eq!(f.needle(), &['o', 'n', 'e']);
    assert_eq!(f.name(), "fuzzy");
    let s = substr_scorer("AB c");
    assert_eq!(s.needle(), &['a', 'b', ' ', 'c']);
    assert_eq!(s.name(), "substr");
}

#[test]
fn fuzzy_bonus() {
    let hay: Vec<char> = "a/bC d".chars().collect();
    let bonus = FuzzyScorer::bonus(&hay);
    assert_eq!(bonus.len(), 6);
    assert_eq!(bonus[0], Bonus::Slash);
    assert_eq!(bonus[2], Bonus::Slash);
    assert_eq!(bonus[3], Bonus::Capital);
    assert_eq!(bonus[1], Bonus::Nothing);
}

fn substr_match_positions(needle: &str, haystack: &str) -> Vec<usize> {
    let scorer = SubstrScorer::new(needle.chars().collect());
    let haystack: Vec<char> = haystack.chars().collect();
    match scorer.score_ref(&haystack) {
        Some(SubstrMatch::Span { positions, .. }) => positions,
        other => panic!("unexpected {:?}", other),
    }
}

#[test]
fn score_test_substr_scorer() {
    assert_eq!(
        substr_match_positions("one  ababc", " one babababcd "),
        vec![1, 2, 3, 8, 9, 10, 11, 12]
    );
}

#[test]
fn scorer_test_substr_scorer() {
    assert_eq!(
        substr_match_positions("one  ababc", " one babababcd "),
        vec![1, 2, 3, 8, 9, 10, 11, 12]
    );
    assert_eq!(substr_match_positions("o", "one"), vec![0]);
}
