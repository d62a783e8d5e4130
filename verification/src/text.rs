//! Character-level string primitives: prefix tests, single prefix removal,
//! locating the last `/`, and the textual `.js` -> `.js.map` rewrite.

use vstd::prelude::*;

verus! {

/// `p` is a prefix of `s`.
pub open spec fn starts_with(s: Seq<char>, p: Seq<char>) -> bool {
    p.len() <= s.len() && s.subrange(0, p.len() as int) == p
}

/// `s` with one leading occurrence of `p` removed; `s` unchanged when `p`
/// is not a prefix.
pub open spec fn strip_prefix(s: Seq<char>, p: Seq<char>) -> Seq<char> {
    if starts_with(s, p) {
        s.skip(p.len() as int)
    } else {
        s
    }
}

/// Index of the last `/` in `s`, or `-1` when `s` holds none.
pub open spec fn last_slash(s: Seq<char>) -> int
    decreases s.len(),
{
    if s.len() == 0 {
        -1
    } else if s[s.len() - 1] == '/' {
        s.len() - 1
    } else {
        last_slash(s.drop_last())
    }
}

/// `last_slash` is what its name says: it points at a `/`, nothing to its
/// right is a `/`, and `-1` means `s` holds no `/` at all.
pub proof fn lemma_last_slash(s: Seq<char>)
    ensures
        last_slash(s) == -1 ==> forall|j: int| 0 <= j < s.len() ==> s[j] != '/',
        last_slash(s) >= 0 ==> last_slash(s) < s.len() && s[last_slash(s)] == '/' && forall|j: int|
            last_slash(s) < j < s.len() ==> s[j] != '/',
    decreases s.len(),
{
    if s.len() > 0 && s[s.len() - 1] != '/' {
        lemma_last_slash(s.drop_last());
        assert forall|j: int| 0 <= j < s.len() - 1 implies s.drop_last()[j] == s[j] by {}
    }
}

pub open spec fn js_pat() -> Seq<char> {
    seq!['.', 'j', 's']
}

pub open spec fn js_map_pat() -> Seq<char> {
    seq!['.', 'j', 's', '.', 'm', 'a', 'p']
}

/// The part of the `.js` -> `.js.map` rewrite that is still to be produced
/// once the scan has reached position `i`: occurrences are found left to
/// right, never overlapping, and the scan resumes after each replacement.
pub open spec fn replace_js_from(s: Seq<char>, i: int) -> Seq<char>
    decreases s.len() - i,
{
    if i < 0 || i >= s.len() {
        Seq::empty()
    } else if i + 3 <= s.len() && s.subrange(i, i + 3) == js_pat() {
        js_map_pat() + replace_js_from(s, i + 3)
    } else {
        seq![s[i]] + replace_js_from(s, i + 1)
    }
}

/// `s` with every occurrence of `.js` replaced by `.js.map`, scanning left
/// to right over the characters with no regard to path structure.
pub open spec fn replace_js(s: Seq<char>) -> Seq<char> {
    replace_js_from(s, 0)
}

/// Does `s` begin with `p`?
pub fn has_prefix(s: &str, p: &str) -> (r: bool)
    ensures
        r == starts_with(s@, p@),
{
    let n = p.unicode_len();
    let m = s.unicode_len();
    if n > m {
        return false;
    }
    let mut i: usize = 0;
    while i < n
        invariant
            i <= n,
            n == p@.len(),
            m == s@.len(),
            n <= m,
            forall|j: int| 0 <= j < i ==> s@[j] == p@[j],
        decreases n - i,
    {
        if s.get_char(i) != p.get_char(i) {
            assert(s@.subrange(0, n as int) != p@) by {
                assert(s@.subrange(0, n as int)[i as int] == s@[i as int]);
            }
            return false;
        }
        i += 1;
    }
    assert(s@.subrange(0, n as int) =~= p@);
    true
}

/// `s` with one leading occurrence of `p` removed, if it is there.
pub fn strip_prefix_once<'a>(s: &'a str, p: &str) -> (r: &'a str)
    ensures
        r@ == strip_prefix(s@, p@),
{
    if has_prefix(s, p) {
        let n = p.unicode_len();
        let m = s.unicode_len();
        let r = s.substring_char(n, m);
        proof {
            assert(s@.subrange(n as int, m as int) =~= s@.skip(n as int));
        }
        r
    } else {
        s
    }
}

/// Position just after the last `/` in `s`, or `None` when there is none.
pub fn find_last_slash(s: &str) -> (r: Option<usize>)
    ensures
        match r {
            Some(k) => k < s@.len() && last_slash(s@) == k,
            None => last_slash(s@) == -1,
        },
{
    let n = s.unicode_len();
    let mut i: usize = n;
    proof {
        assert(s@.take(n as int) =~= s@);
    }
    while i > 0
        invariant
            i <= n,
            n == s@.len(),
            last_slash(s@) == last_slash(s@.take(i as int)),
        decreases i,
    {
        let c = s.get_char(i - 1);
        proof {
            assert(s@.take(i as int)[i - 1] == s@[i - 1]);
        }
        if c == '/' {
            return Some(i - 1);
        }
        proof {
            assert(s@.take(i as int).drop_last() =~= s@.take(i - 1));
        }
        i -= 1;
    }
    assert(s@.take(0).len() == 0);
    None
}

/// `s` with every `.js` replaced by `.js.map`, as `replace_js` states.
pub fn replace_js_str(s: &str) -> (r: String)
    ensures
        r@ == replace_js(s@),
{
    let n = s.unicode_len();
    let mut r = String::new();
    let mut i: usize = 0;
    while i < n
        invariant
            i <= n,
            n == s@.len(),
            replace_js(s@) == r@ + replace_js_from(s@, i as int),
        decreases n - i,
    {
        if n - i >= 3 && s.get_char(i) == '.' && s.get_char(i + 1) == 'j' && s.get_char(i + 2)
            == 's' {
            proof {
                assert(s@.subrange(i as int, i + 3) =~= js_pat());
            }
            let ghost prev = r@;
            r.append(".js.map");
            proof {
                reveal_strlit(".js.map");
                assert(".js.map"@ =~= js_map_pat());
                assert(prev + (js_map_pat() + replace_js_from(s@, i + 3)) =~= r@ + replace_js_from(
                    s@,
                    i + 3,
                ));
            }
            i += 3;
        } else {
            proof {
                if i + 3 <= n {
                    assert(s@.subrange(i as int, i + 3) != js_pat()) by {
                        assert(s@.subrange(i as int, i + 3)[0] == s@[i as int]);
                        assert(s@.subrange(i as int, i + 3)[1] == s@[i + 1]);
                        assert(s@.subrange(i as int, i + 3)[2] == s@[i + 2]);
                    }
                }
            }
            let c = s.substring_char(i, i + 1);
            let ghost prev = r@;
            r.append(c);
            proof {
                assert(c@ =~= seq![s@[i as int]]);
                assert(prev + (seq![s@[i as int]] + replace_js_from(s@, i + 1)) =~= r@
                    + replace_js_from(s@, i + 1));
            }
            i += 1;
        }
    }
    assert(r@ =~= r@ + replace_js_from(s@, n as int));
    r
}

} // verus!
