//! Runs of one character, as they stand for what was redacted in a text.
use vstd::prelude::*;

verus! {

/// How many `c` stand in `s` from index `i` on, up to the first other character.
pub open spec fn run_len(s: Seq<char>, c: char, i: int) -> nat
    decreases s.len() - i,
{
    if 0 <= i < s.len() && s[i] == c {
        1 + run_len(s, c, i + 1)
    } else {
        0
    }
}

/// Where the first run of at least `min` times `c` begins and ends, from index `i` on.
pub open spec fn first_run(s: Seq<char>, c: char, min: nat, i: int) -> Option<(int, int)>
    decreases s.len() - i,
{
    if i < 0 || i >= s.len() {
        None
    } else {
        let n = run_len(s, c, i);
        if n >= min {
            Some((i, i + n))
        } else {
            first_run(s, c, min, i + 1)
        }
    }
}

/// The parts of `s` before, between and behind its runs of at least `min` times `c`.
pub open spec fn split_at_runs(s: Seq<char>, c: char, min: nat) -> Seq<Seq<char>>
    decreases s.len(),
{
    match first_run(s, c, min, 0) {
        Some((a, b)) => if 0 <= a < b <= s.len() {
            seq![s.take(a)] + split_at_runs(s.skip(b), c, min)
        } else {
            seq![s]
        },
        None => seq![s],
    }
}

/// `s` with `to` in place of every run of at least `min` times `c`.
pub open spec fn replace_each_run(s: Seq<char>, c: char, min: nat, to: Seq<char>) -> Seq<char>
    decreases s.len(),
{
    match first_run(s, c, min, 0) {
        Some((a, b)) => if 0 <= a < b <= s.len() {
            s.take(a) + to + replace_each_run(s.skip(b), c, min, to)
        } else {
            s
        },
        None => s,
    }
}

/// The texts of `strings`.
pub open spec fn texts(strings: Seq<String>) -> Seq<Seq<char>> {
    Seq::new(strings.len(), |i: int| strings[i]@)
}

/// Calls `regex::Regex::split` with the pattern of at least `min` times `c`. Such a pattern matches
/// the runs of `c` that long, each as a whole, and what comes out is what they leave of the text.
#[verifier::external_body]
pub(crate) fn split_runs(text: &str, c: char, min: usize) -> (parts: Vec<String>)
    requires
        1 <= min <= 1000,
    ensures
        texts(parts@) == split_at_runs(text@, c, min as nat),
{
    let pattern = format!("{}{{{},}}", regex::escape(&c.to_string()), min);
    regex::Regex::new(&pattern).unwrap().split(text).map(|part| part.to_string()).collect()
}

/// Calls `regex::Regex::replace_all` with the pattern of at least `min` times `c`. Such a pattern
/// matches the runs of `c` that long, each as a whole, and `to` comes in place of each.
#[verifier::external_body]
pub(crate) fn replace_runs(text: &str, c: char, min: usize, to: &str) -> (r: String)
    requires
        1 <= min <= 1000,
    ensures
        r@ == replace_each_run(text@, c, min as nat, to@),
{
    let pattern = format!("{}{{{},}}", regex::escape(&c.to_string()), min);
    regex::Regex::new(&pattern).unwrap().replace_all(text, regex::NoExpand(to)).to_string()
}

/// Whether no run of `min` times `c` stands in `s`.
pub open spec fn without_run(s: Seq<char>, c: char, min: nat) -> bool {
    forall|i: int| 0 <= i < s.len() ==> #[trigger] run_len(s, c, i) < min
}

proof fn lemma_run_len(s: Seq<char>, c: char, i: int)
    requires
        0 <= i <= s.len(),
    ensures
        i + run_len(s, c, i) <= s.len(),
        i + run_len(s, c, i) < s.len() ==> s[i + run_len(s, c, i)] != c,
    decreases s.len() - i,
{
    if i < s.len() && s[i] == c {
        lemma_run_len(s, c, i + 1);
    }
}

/// The first run is a run, ends where the character ends, and none that long begins before it.
pub proof fn lemma_first_run(s: Seq<char>, c: char, min: nat, i: int)
    requires
        min >= 1,
        0 <= i,
    ensures
        match first_run(s, c, min, i) {
            Some((a, b)) => {
                &&& i <= a < b <= s.len()
                &&& b == a + run_len(s, c, a)
                &&& b - a >= min
                &&& b < s.len() ==> s[b] != c
                &&& forall|k: int| i <= k < a ==> #[trigger] run_len(s, c, k) < min
            },
            None => forall|k: int| i <= k < s.len() ==> #[trigger] run_len(s, c, k) < min,
        },
    decreases s.len() - i,
{
    if i < s.len() {
        lemma_run_len(s, c, i);
        let n = run_len(s, c, i);
        if n < min {
            lemma_first_run(s, c, min, i + 1);
        }
    }
}

/// A stretch of a text has no longer runs than the text.
pub proof fn lemma_stretch_run_len(s: Seq<char>, c: char, a: int, b: int, i: int)
    requires
        0 <= a <= b <= s.len(),
        0 <= i <= b - a,
    ensures
        run_len(s.subrange(a, b), c, i) <= run_len(s, c, a + i),
    decreases b - a - i,
{
    if i < b - a && s[a + i] == c {
        lemma_stretch_run_len(s, c, a, b, i + 1);
    }
}

/// A stretch of a text without a run has none either.
pub proof fn lemma_stretch_without_run(s: Seq<char>, c: char, min: nat, a: int, b: int)
    requires
        0 <= a <= b <= s.len(),
        without_run(s, c, min),
    ensures
        without_run(s.subrange(a, b), c, min),
{
    assert forall|i: int| 0 <= i < b - a implies #[trigger] run_len(s.subrange(a, b), c, i) < min by {
        lemma_stretch_run_len(s, c, a, b, i);
    }
}

/// No part that a split leaves has a run in it that the text was split at.
pub proof fn law_parts_have_no_run(s: Seq<char>, c: char, min: nat)
    requires
        min >= 1,
    ensures
        forall|k: int|
            0 <= k < split_at_runs(s, c, min).len() ==> without_run(
                #[trigger] split_at_runs(s, c, min)[k],
                c,
                min,
            ),
    decreases s.len(),
{
    lemma_first_run(s, c, min, 0);
    let parts = split_at_runs(s, c, min);
    if let Some((a, b)) = first_run(s, c, min, 0) {
        law_parts_have_no_run(s.skip(b), c, min);
        assert(s.take(a) =~= s.subrange(0, a));
        assert(without_run(s.take(a), c, min)) by {
            assert forall|i: int| 0 <= i < a implies #[trigger] run_len(s.take(a), c, i) < min by {
                lemma_stretch_run_len(s, c, 0, a, i);
            }
        }
        let rest = split_at_runs(s.skip(b), c, min);
        assert forall|k: int| 0 <= k < parts.len() implies without_run(#[trigger] parts[k], c, min) by {
            if k > 0 {
                assert(parts[k] == rest[k - 1]);
            }
        }
    }
}

/// A text without such a run is left as it is by a split and by a replacement.
pub proof fn law_text_without_run_stays(s: Seq<char>, c: char, min: nat, to: Seq<char>)
    requires
        min >= 1,
        without_run(s, c, min),
    ensures
        split_at_runs(s, c, min) == seq![s],
        replace_each_run(s, c, min, to) == s,
{
    lemma_first_run(s, c, min, 0);
    if let Some((a, b)) = first_run(s, c, min, 0) {
        assert(run_len(s, c, a) >= min);
    }
}

proof fn lemma_run_len_behind(a: Seq<char>, b: Seq<char>, c: char, i: int)
    requires
        a.len() <= i,
    ensures
        run_len(a + b, c, i) == run_len(b, c, i - a.len()),
    decreases a.len() + b.len() - i,
{
    if i < a.len() + b.len() {
        lemma_run_len_behind(a, b, c, i + 1);
    }
}

proof fn lemma_run_len_before(a: Seq<char>, b: Seq<char>, c: char, i: int)
    requires
        0 <= i <= a.len(),
        b.len() > 0 ==> b[0] != c,
    ensures
        run_len(a + b, c, i) == run_len(a, c, i),
    decreases a.len() - i,
{
    if i < a.len() {
        lemma_run_len_before(a, b, c, i + 1);
    }
}

/// Two texts without a run have none when put together, where the second does not begin with the
/// character of the run.
proof fn lemma_joined_without_run(a: Seq<char>, b: Seq<char>, c: char, min: nat)
    requires
        without_run(a, c, min),
        without_run(b, c, min),
        b.len() > 0 ==> b[0] != c,
    ensures
        without_run(a + b, c, min),
{
    assert forall|i: int| 0 <= i < (a + b).len() implies #[trigger] run_len(a + b, c, i) < min by {
        if i < a.len() {
            lemma_run_len_before(a, b, c, i);
        } else {
            lemma_run_len_behind(a, b, c, i);
            assert(run_len(b, c, i - a.len()) < min);
        }
    }
}

/// Where every run is replaced by one `c` on each side of another character, no run is left.
pub proof fn lemma_shortened_runs(s: Seq<char>, c: char, min: nat, m: char)
    requires
        min >= 2,
        m != c,
    ensures
        without_run(replace_each_run(s, c, min, seq![c, m, c]), c, min),
        s.len() > 0 && s[0] != c ==> {
            &&& replace_each_run(s, c, min, seq![c, m, c]).len() > 0
            &&& replace_each_run(s, c, min, seq![c, m, c])[0] == s[0]
        },
    decreases s.len(),
{
    lemma_first_run(s, c, min, 0);
    if let Some((a, b)) = first_run(s, c, min, 0) {
        let rest = s.skip(b);
        let r = replace_each_run(rest, c, min, seq![c, m, c]);
        lemma_shortened_runs(rest, c, min, m);
        assert(r.len() > 0 ==> r[0] != c) by {
            if rest.len() > 0 {
                assert(rest[0] == s[b]);
            } else {
                assert(first_run(rest, c, min, 0) is None);
            }
        }
        let head = s.take(a);
        assert(head =~= s.subrange(0, a));
        assert(without_run(head, c, min)) by {
            assert forall|i: int| 0 <= i < a implies #[trigger] run_len(head, c, i) < min by {
                lemma_stretch_run_len(s, c, 0, a, i);
            }
        }
        if a > 0 && head.last() == c {
            assert(run_len(s, c, a - 1) >= min);
        }
        let tail = seq![m, c] + r;
        let two = seq![m, c];
        assert(without_run(two, c, min)) by {
            assert(run_len(two, c, 2) == 0);
            assert(run_len(two, c, 1) == 1);
            assert(run_len(two, c, 0) == 0);
            assert forall|i: int| 0 <= i < two.len() implies #[trigger] run_len(two, c, i) < min by {
                assert(i == 0 || i == 1);
            }
        }
        lemma_joined_without_run(two, r, c, min);
        let first = head.push(c);
        assert(without_run(first, c, min)) by {
            assert forall|i: int| 0 <= i < first.len() implies #[trigger] run_len(first, c, i)
                < min by {
                lemma_pushed_run_len(head, c, i);
            }
        }
        lemma_joined_without_run(first, tail, c, min);
        assert(first + tail =~= head + seq![c, m, c] + r);
    }
}

/// Behind another character, one more `c` at the end is a run of its own.
proof fn lemma_pushed_run_len(s: Seq<char>, c: char, i: int)
    requires
        0 <= i <= s.len(),
        s.len() > 0 ==> s.last() != c,
    ensures
        run_len(s.push(c), c, i) == if i == s.len() {
            1
        } else {
            run_len(s, c, i)
        },
    decreases s.len() - i,
{
    let t = s.push(c);
    assert(run_len(t, c, t.len() as int) == 0);
    if i < s.len() {
        lemma_pushed_run_len(s, c, i + 1);
    }
}

/// A run that is long enough is replaced as a whole, with what stands before it left as it is, and what
/// stands behind it replaced on its own.
pub proof fn lemma_run_is_replaced(
    before: Seq<char>,
    c: char,
    min: nat,
    n: nat,
    behind: Seq<char>,
    to: Seq<char>,
)
    requires
        1 <= min <= n,
        without_run(before, c, min),
        before.len() > 0 ==> before.last() != c,
        behind.len() > 0 ==> behind[0] != c,
    ensures
        replace_each_run(before + Seq::new(n, |i: int| c) + behind, c, min, to) == before + to
            + replace_each_run(behind, c, min, to),
{
    let s = before + Seq::new(n, |i: int| c) + behind;
    lemma_first_run_is(before, c, min, n, behind);
    let a = before.len() as int;
    assert(s.take(a) =~= before);
    assert(s.skip(a + n) =~= behind);
}

/// The first run of a text is the one that nothing of the kind stands before.
proof fn lemma_first_run_is(before: Seq<char>, c: char, min: nat, n: nat, behind: Seq<char>)
    requires
        1 <= min <= n,
        without_run(before, c, min),
        before.len() > 0 ==> before.last() != c,
        behind.len() > 0 ==> behind[0] != c,
    ensures
        first_run(before + Seq::new(n, |i: int| c) + behind, c, min, 0) == Some(
            (before.len() as int, before.len() + n as int),
        ),
{
    let run = Seq::new(n, |i: int| c);
    let s = before + run + behind;
    let a = before.len() as int;
    lemma_run_of(before, c, n, behind, 0);
    lemma_first_run(s, c, min, 0);
    assert forall|i: int| 0 <= i < a implies #[trigger] run_len(s, c, i) < min by {
        lemma_run_stops(before, c, run + behind, i);
        assert(s =~= before + (run + behind));
        assert(run_len(before, c, i) < min);
    }
    match first_run(s, c, min, 0) {
        Some((p, q)) => {
            if p < a {
                assert(run_len(s, c, p) < min);
            }
            if p > a {
                assert(run_len(s, c, a) < min);
            }
        },
        None => {
            assert(run_len(s, c, a) < min);
        },
    }
}

/// A run is as long as what is left of it.
proof fn lemma_run_of(before: Seq<char>, c: char, n: nat, behind: Seq<char>, k: int)
    requires
        0 <= k <= n,
        behind.len() > 0 ==> behind[0] != c,
    ensures
        run_len(before + Seq::new(n, |i: int| c) + behind, c, before.len() + k) == n - k,
    decreases n - k,
{
    let s = before + Seq::new(n, |i: int| c) + behind;
    if k < n {
        lemma_run_of(before, c, n, behind, k + 1);
        assert(s[before.len() + k] == c);
    } else if behind.len() > 0 {
        assert(s[before.len() + k] == behind[0]);
    }
}

/// Where a text does not end with a character, a run of it in that text stops there.
proof fn lemma_run_stops(a: Seq<char>, c: char, b: Seq<char>, i: int)
    requires
        0 <= i < a.len(),
        a.last() != c,
    ensures
        run_len(a + b, c, i) == run_len(a, c, i),
    decreases a.len() - i,
{
    assert((a + b)[i] == a[i]);
    if a[i] == c {
        lemma_run_stops(a, c, b, i + 1);
    }
}

/// A text is split at a run that is long enough: what stands before it is a part, and what stands behind
/// it is split on its own.
pub proof fn lemma_run_is_split_at(before: Seq<char>, c: char, min: nat, n: nat, behind: Seq<char>)
    requires
        1 <= min <= n,
        without_run(before, c, min),
        before.len() > 0 ==> before.last() != c,
        behind.len() > 0 ==> behind[0] != c,
    ensures
        split_at_runs(before + Seq::new(n, |i: int| c) + behind, c, min) == seq![before]
            + split_at_runs(behind, c, min),
{
    let s = before + Seq::new(n, |i: int| c) + behind;
    lemma_first_run_is(before, c, min, n, behind);
    let a = before.len() as int;
    assert(s.take(a) =~= before);
    assert(s.skip(a + n) =~= behind);
}

/// The texts of strings are theirs, one for each, in order.
pub proof fn law_texts_are_those_of_the_strings(strings: Seq<String>, i: int)
    requires
        0 <= i < strings.len(),
    ensures
        texts(strings).len() == strings.len(),
        texts(strings)[i] == strings[i]@,
{
}

} // verus!
