use lcs::{Diff, Lcs, Preference};

const PAIRS: [(&[u8], &[u8]); 12] = [
    (b"", b""),
    (b"a", b""),
    (b"", b"a"),
    (b"a", b"a"),
    (b"a", b"b"),
    (b"abc", b"acb"),
    (b"Hi!", b"Hey!"),
    (b"Hello!", b"Hello :D!"),
    (b"AGGTAB", b"GXTXAYB"),
    (b"XMJYAUZ", b"MZJAWXU"),
    (b"aaaa", b"aa"),
    (b"abcabcabc", b"cbacbacba"),
];

/// A word that compares without regard to case.
#[derive(Debug)]
struct Word(&'static str);

impl PartialEq for Word {
    fn eq(&self, other: &Word) -> bool {
        self.0.eq_ignore_ascii_case(other.0)
    }
}

impl Eq for Word {}

const BOTH: [Preference; 2] = [Preference::DeleteFirst, Preference::InsertFirst];

fn source_side(script: &[Diff<u8>]) -> Vec<u8> {
    let mut out = Vec::new();
    for step in script {
        match step {
            Diff::Common(e) | Diff::Delete(e) => out.push(**e),
            Diff::Insert(_) => {}
        }
    }
    out
}

fn dest_side(script: &[Diff<u8>]) -> Vec<u8> {
    let mut out = Vec::new();
    for step in script {
        match step {
            Diff::Common(e) | Diff::Insert(e) => out.push(**e),
            Diff::Delete(_) => {}
        }
    }
    out
}

fn common_count(script: &[Diff<u8>]) -> usize {
    script.iter().filter(|step| matches!(step, Diff::Common(_))).count()
}

/// The longest common subsequence by trying every subsequence of `a`.
fn longest_by_search(a: &[u8], b: &[u8]) -> usize {
    let mut best = 0;
    for mask in 0u32..(1u32 << a.len()) {
        let picked: Vec<u8> =
            (0..a.len()).filter(|i| mask & (1 << i) != 0).map(|i| a[i]).collect();
        let mut at = 0;
        for e in b {
            if at < picked.len() && picked[at] == *e {
                at += 1;
            }
        }
        if at == picked.len() && picked.len() > best {
            best = picked.len();
        }
    }
    best
}

#[test]
fn length_of_known_pairs() {
    assert_eq!(Lcs::new(b"AGGTAB", b"GXTXAYB").length(), 4);
    assert_eq!(Lcs::new(b"XMJYAUZ", b"MZJAWXU").length(), 4);
    assert_eq!(Lcs::new(b"abc", b"acb").length(), 2);
    assert_eq!(Lcs::new(b"aaaa", b"aa").length(), 2);
    assert_eq!(Lcs::new(b"abc", b"xyz").length(), 0);
}

#[test]
fn length_is_that_of_the_longest_common_subsequence() {
    for (a, b) in PAIRS {
        assert_eq!(Lcs::new(a, b).length(), longest_by_search(a, b));
    }
}

#[test]
fn length_is_symmetric() {
    for (a, b) in PAIRS {
        assert_eq!(Lcs::new(a, b).length(), Lcs::new(b, a).length());
    }
}

#[test]
fn length_is_bounded_by_both_sequences() {
    for (a, b) in PAIRS {
        let n = Lcs::new(a, b).length();
        assert!(n <= a.len());
        assert!(n <= b.len());
    }
}

#[test]
fn sequence_against_itself_is_all_common() {
    let a: &[u8] = b"abracadabra";
    let lcs = Lcs::new(a, a);
    assert_eq!(lcs.length(), a.len());
    for preference in BOTH {
        let script = lcs.backtrack(preference);
        let expected: Vec<Diff<u8>> = a.iter().map(Diff::Common).collect();
        assert_eq!(script, expected);
    }
}

#[test]
fn diff_restores_both_sequences() {
    for (a, b) in PAIRS {
        let lcs = Lcs::new(a, b);
        for preference in BOTH {
            let script = lcs.backtrack(preference);
            assert_eq!(source_side(&script), a);
            assert_eq!(dest_side(&script), b);
        }
    }
}

#[test]
fn diff_has_one_step_per_element_and_one_for_two_common() {
    for (a, b) in PAIRS {
        let lcs = Lcs::new(a, b);
        for preference in BOTH {
            let script = lcs.backtrack(preference);
            assert_eq!(common_count(&script), lcs.length());
            assert_eq!(script.len(), a.len() + b.len() - lcs.length());
        }
    }
}

#[test]
fn diff_length_of_known_pair() {
    let lcs = Lcs::new(b"Hello!", b"Hello :D!");
    assert_eq!(lcs.backtrack(Preference::DeleteFirst).len(), 9);
    assert_eq!(lcs.backtrack(Preference::InsertFirst).len(), 9);
}

#[test]
fn backtrack_twice_gives_the_same() {
    for (a, b) in PAIRS {
        let lcs = Lcs::new(a, b);
        for preference in BOTH {
            assert_eq!(lcs.backtrack(preference), lcs.backtrack(preference));
        }
    }
}

#[test]
fn queries_in_any_order() {
    let lcs = Lcs::new(b"Hi!", b"Hey!");
    let first = lcs.backtrack(Preference::InsertFirst);
    assert_eq!(lcs.length(), 2);
    let second = lcs.backtrack(Preference::DeleteFirst);
    assert_eq!(lcs.length(), 2);
    assert_eq!(lcs.backtrack(Preference::InsertFirst), first);
    assert_eq!(lcs.backtrack(Preference::DeleteFirst), second);
    assert_ne!(first, second);
}

#[test]
fn empty_source_is_all_inserts() {
    let a: &[u8] = b"";
    let b: &[u8] = b"xyz";
    let lcs = Lcs::new(a, b);
    assert_eq!(lcs.length(), 0);
    for preference in BOTH {
        assert_eq!(
            lcs.backtrack(preference),
            vec![Diff::Insert(&b'x'), Diff::Insert(&b'y'), Diff::Insert(&b'z')]
        );
    }
}

#[test]
fn empty_dest_is_all_deletes() {
    let a: &[u8] = b"xyz";
    let b: &[u8] = b"";
    let lcs = Lcs::new(a, b);
    assert_eq!(lcs.length(), 0);
    for preference in BOTH {
        assert_eq!(
            lcs.backtrack(preference),
            vec![Diff::Delete(&b'x'), Diff::Delete(&b'y'), Diff::Delete(&b'z')]
        );
    }
}

#[test]
fn both_empty_is_an_empty_diff() {
    let a: &[u8] = b"";
    let lcs = Lcs::new(a, a);
    assert_eq!(lcs.length(), 0);
    for preference in BOTH {
        assert_eq!(lcs.backtrack(preference), vec![]);
    }
}

#[test]
fn source_runs_out_before_dest() {
    let lcs = Lcs::new(b"b", b"ab");
    for preference in BOTH {
        assert_eq!(lcs.backtrack(preference), vec![Diff::Insert(&b'a'), Diff::Common(&b'b')]);
    }
}

#[test]
fn dest_runs_out_before_source() {
    let lcs = Lcs::new(b"ab", b"b");
    for preference in BOTH {
        assert_eq!(lcs.backtrack(preference), vec![Diff::Delete(&b'a'), Diff::Common(&b'b')]);
    }
}

#[test]
fn disjoint_sequences_follow_the_preference() {
    let lcs = Lcs::new(b"ab", b"xy");
    assert_eq!(lcs.length(), 0);
    assert_eq!(
        lcs.backtrack(Preference::DeleteFirst),
        vec![Diff::Delete(&b'a'), Diff::Delete(&b'b'), Diff::Insert(&b'x'), Diff::Insert(&b'y')]
    );
    assert_eq!(
        lcs.backtrack(Preference::InsertFirst),
        vec![Diff::Insert(&b'x'), Diff::Insert(&b'y'), Diff::Delete(&b'a'), Diff::Delete(&b'b')]
    );
}

#[test]
fn lines_of_text() {
    let source = vec!["fn main() {".to_string(), "    old();".to_string(), "}".to_string()];
    let dest = vec!["fn main() {".to_string(), "    new();".to_string(), "}".to_string()];
    let lcs = Lcs::new(&source, &dest);
    assert_eq!(lcs.length(), 2);
    assert_eq!(
        lcs.backtrack(Preference::DeleteFirst),
        vec![
            Diff::Common(&source[0]),
            Diff::Delete(&source[1]),
            Diff::Insert(&dest[1]),
            Diff::Common(&source[2])
        ]
    );
}

#[test]
fn common_steps_refer_to_the_source() {
    let source = [Word("Hello"), Word("world")];
    let dest = [Word("HELLO"), Word("there")];
    let lcs = Lcs::new(&source, &dest);
    assert_eq!(lcs.length(), 1);
    let script = lcs.backtrack(Preference::DeleteFirst);
    assert_eq!(script.len(), 3);
    match script[0] {
        Diff::Common(word) => assert_eq!(word.0, "Hello"),
        _ => panic!("the first step is common"),
    }
    match script[1] {
        Diff::Delete(word) => assert_eq!(word.0, "world"),
        _ => panic!("the second step is a delete"),
    }
    match script[2] {
        Diff::Insert(word) => assert_eq!(word.0, "there"),
        _ => panic!("the third step is an insert"),
    }
}

#[test]
fn clone_answers_alike() {
    let lcs = Lcs::new(b"Hi!", b"Hey!");
    let copy = lcs.clone();
    assert_eq!(copy.length(), lcs.length());
    for preference in BOTH {
        assert_eq!(copy.backtrack(preference), lcs.backtrack(preference));
    }
}

/// The table as one fills it by hand: a row for each prefix of `b`, a cell in
/// it for each prefix of `a`.
fn table_by_hand(a: &[u8], b: &[u8]) -> Vec<Vec<usize>> {
    let mut table = vec![vec![0; a.len() + 1]; b.len() + 1];
    for y in 1..=b.len() {
        for x in 1..=a.len() {
            table[y][x] = if a[x - 1] == b[y - 1] {
                table[y - 1][x - 1] + 1
            } else {
                table[y][x - 1].max(table[y - 1][x])
            };
        }
    }
    table
}

/// The walk over `table_by_hand` from its last cell to its first. A step is
/// 'c', 'd' or 'i' and the element it holds.
fn walk_by_hand(a: &[u8], b: &[u8], delete_first: bool) -> Vec<(char, u8)> {
    let table = table_by_hand(a, b);
    let (mut x, mut y) = (a.len(), b.len());
    let mut steps = Vec::new();
    while x > 0 || y > 0 {
        if x > 0 && y > 0 && a[x - 1] == b[y - 1] {
            steps.push(('c', a[x - 1]));
            x -= 1;
            y -= 1;
        } else if y > 0
            && (x == 0
                || table[y - 1][x] > table[y][x - 1]
                || (table[y - 1][x] == table[y][x - 1] && delete_first))
        {
            steps.push(('i', b[y - 1]));
            y -= 1;
        } else {
            steps.push(('d', a[x - 1]));
            x -= 1;
        }
    }
    steps.reverse();
    steps
}

fn as_pairs(script: &[Diff<u8>]) -> Vec<(char, u8)> {
    script
        .iter()
        .map(|step| match step {
            Diff::Common(e) => ('c', **e),
            Diff::Delete(e) => ('d', **e),
            Diff::Insert(e) => ('i', **e),
        })
        .collect()
}

/// Sequences over a few letters, so that ties are common.
fn generated(count: usize) -> Vec<(Vec<u8>, Vec<u8>)> {
    let mut state: u32 = 12345;
    let mut next = move |below: u32| {
        state = state.wrapping_mul(1103515245).wrapping_add(12345);
        (state >> 16) % below
    };
    let mut out = Vec::new();
    for _ in 0..count {
        let a: Vec<u8> = (0..next(9)).map(|_| b'a' + next(3) as u8).collect();
        let b: Vec<u8> = (0..next(9)).map(|_| b'a' + next(3) as u8).collect();
        out.push((a, b));
    }
    out
}

#[test]
fn generated_pairs_agree_with_a_table_filled_by_hand() {
    for (a, b) in generated(300) {
        let lcs = Lcs::new(&a, &b);
        assert_eq!(lcs.length(), table_by_hand(&a, &b)[b.len()][a.len()]);
        assert_eq!(lcs.length(), longest_by_search(&a, &b));
        assert_eq!(as_pairs(&lcs.backtrack(Preference::DeleteFirst)), walk_by_hand(&a, &b, true));
        assert_eq!(as_pairs(&lcs.backtrack(Preference::InsertFirst)), walk_by_hand(&a, &b, false));
    }
}

#[test]
fn generated_pairs_keep_the_general_rules() {
    for (a, b) in generated(300) {
        let lcs = Lcs::new(&a, &b);
        let n = lcs.length();
        assert_eq!(n, Lcs::new(&b, &a).length());
        assert!(n <= a.len() && n <= b.len());
        for preference in BOTH {
            let script = lcs.backtrack(preference);
            assert_eq!(source_side(&script), a);
            assert_eq!(dest_side(&script), b);
            assert_eq!(common_count(&script), n);
            assert_eq!(script.len(), a.len() + b.len() - n);
            assert_eq!(script, lcs.backtrack(preference));
        }
    }
}

#[test]
fn preference_orders_a_tie_as_it_says() {
    let lcs = Lcs::new(b"a", b"b");
    assert_eq!(
        lcs.backtrack(Preference::DeleteFirst),
        vec![Diff::Delete(&b'a'), Diff::Insert(&b'b')]
    );
    assert_eq!(
        lcs.backtrack(Preference::InsertFirst),
        vec![Diff::Insert(&b'b'), Diff::Delete(&b'a')]
    );
}

#[test]
fn steps_and_preferences_are_plain_values() {
    let step = Diff::Common(&7u8);
    let copy = step;
    assert_eq!(step, copy);
    assert_eq!(step.clone(), copy);
    assert_ne!(step, Diff::Delete(&7u8));
    assert_ne!(step, Diff::Common(&8u8));
    assert_eq!(format!("{:?}", step), "Common(7)");
    assert_eq!(format!("{:?}", Diff::Insert(&1u8)), "Insert(1)");
    let preference = Preference::DeleteFirst;
    let same = preference;
    assert_eq!(preference, same);
    assert_ne!(preference, Preference::InsertFirst);
    assert_eq!(format!("{:?}", Preference::InsertFirst), "InsertFirst");
}
