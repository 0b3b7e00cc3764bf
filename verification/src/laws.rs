use vstd::prelude::*;

use crate::minify::emit;
use crate::minify::is_special;
use crate::minify::lemma_scan_len;
use crate::minify::lemma_scan_snoc;
use crate::minify::minify_spec;
use crate::minify::scan;
use crate::minify::scan_step;

verus! {

/// `y` has nothing left for the minifier to do: no line break, no space that
/// touches a special character (nor one at the start), no semicolon right
/// before a closing brace, and no comment opener.
pub open spec fn is_minified(y: Seq<char>) -> bool {
    &&& forall|i: int| 0 <= i < y.len() ==> #[trigger] y[i] != '\n'
    &&& forall|i: int| 0 <= i < y.len() && #[trigger] y[i] == ' ' ==> i > 0 && !is_special(y[i - 1])
    &&& forall|i: int| 0 <= i < y.len() - 1 && #[trigger] y[i] == ' ' ==> !is_special(y[i + 1])
    &&& forall|i: int| 0 <= i < y.len() - 1 ==> !(#[trigger] y[i] == ';' && y[i + 1] == '}')
    &&& forall|i: int| 0 <= i < y.len() - 1 ==> !(#[trigger] y[i] == '/' && y[i + 1] == '*')
}

/// The previous raw character tracked by the scan when it reaches index `k`:
/// a space before the first character, else the character just before.
pub open spec fn prev_of(y: Seq<char>, k: int) -> char {
    if k == 0 {
        ' '
    } else {
        y[k - 1]
    }
}

/// The scan has work to do at index `k` of `y`: the character there is a
/// line break, a space to drop, the `*` of a comment opener, or it makes the
/// character placed just before it redundant.
pub open spec fn defect_at(y: Seq<char>, k: int) -> bool {
    ||| y[k] == '\n'
    ||| (y[k] == ' ' && is_special(prev_of(y, k)))
    ||| (y[k] == '*' && prev_of(y, k) == '/')
    ||| (is_special(y[k]) && k >= 1 && y[k - 1] == ' ')
    ||| (y[k] == '}' && k >= 1 && y[k - 1] == ';')
}

/// Being minified is the same as having no defect at any index.
pub proof fn lemma_minified_defect_equiv(y: Seq<char>)
    ensures
        is_minified(y) <==> (forall|k: int| 0 <= k < y.len() ==> !defect_at(y, k)),
{
    if is_minified(y) {
        assert forall|k: int| 0 <= k < y.len() implies !defect_at(y, k) by {
            assert(y[k] != '\n');
            if y[k] == ' ' {
                assert(k > 0 && !is_special(y[k - 1]));
            }
            if k >= 1 {
                if y[k - 1] == '/' {
                    assert(!(y[k - 1] == '/' && y[k] == '*'));
                }
                if y[k - 1] == ' ' {
                    assert(!is_special(y[k]));
                }
                if y[k - 1] == ';' {
                    assert(!(y[k - 1] == ';' && y[k] == '}'));
                }
            }
        }
    }
    if forall|k: int| 0 <= k < y.len() ==> !defect_at(y, k) {
        assert forall|i: int| 0 <= i < y.len() implies y[i] != '\n' by {
            assert(!defect_at(y, i));
        }
        assert forall|i: int| 0 <= i < y.len() && #[trigger] y[i] == ' ' implies i > 0
            && !is_special(y[i - 1]) by {
            assert(!defect_at(y, i));
        }
        assert forall|i: int| 0 <= i < y.len() - 1 && #[trigger] y[i] == ' ' implies !is_special(
            y[i + 1],
        ) by {
            assert(!defect_at(y, i + 1));
        }
        assert forall|i: int| 0 <= i < y.len() - 1 implies !(#[trigger] y[i] == ';' && y[i + 1]
            == '}') by {
            assert(!defect_at(y, i + 1));
        }
        assert forall|i: int| 0 <= i < y.len() - 1 implies !(#[trigger] y[i] == '/' && y[i + 1]
            == '*') by {
            assert(!defect_at(y, i + 1));
        }
        assert(is_minified(y));
    }
}

/// Up to the first defect the scan just copies its input: after `i`
/// characters the output is those `i` characters, the comment flag is still
/// off, and the previous character is the last one copied.
proof fn lemma_scan_copies_clean_prefix(y: Seq<char>, i: int)
    requires
        0 <= i <= y.len(),
        forall|j: int| 0 <= j < i ==> !defect_at(y, j),
    ensures
        scan(y.take(i), Seq::<char>::empty(), ' ', false).0 == y.take(i),
        scan(y.take(i), Seq::<char>::empty(), ' ', false).1 == prev_of(y, i),
        scan(y.take(i), Seq::<char>::empty(), ' ', false).2 == false,
    decreases i,
{
    if i == 0 {
        assert(y.take(0) =~= Seq::<char>::empty());
    } else {
        lemma_scan_copies_clean_prefix(y, i - 1);
        let ch = y[i - 1];
        let prev = prev_of(y, i - 1);
        lemma_scan_snoc(y.take(i - 1), Seq::<char>::empty(), ' ', false, ch);
        assert(y.take(i) =~= y.take(i - 1).push(ch));
        assert(!defect_at(y, i - 1));
        // No comment entry, no suppression, no retraction at this step.
        assert(!(ch == '*' && prev == '/'));
        assert(ch != '\n');
        assert(!(ch == ' ' && is_special(prev)));
        if i >= 2 {
            assert(y.take(i - 1).last() == y[i - 2]);
            assert(!(is_special(ch) && y[i - 2] == ' '));
            assert(!(ch == '}' && y[i - 2] == ';'));
            assert(emit(y.take(i - 1), ch) == y.take(i - 1).push(ch));
        }
        assert(scan_step(y.take(i - 1), prev, false, ch).0 == y.take(i - 1).push(ch));
    }
}

/// A minified text is a fixed point: running the minifier over it gives it
/// back unchanged.
pub proof fn lemma_minified_fixed_point(y: Seq<char>)
    requires
        is_minified(y),
    ensures
        minify_spec(y) == y,
{
    lemma_minified_defect_equiv(y);
    lemma_scan_copies_clean_prefix(y, y.len() as int);
    assert(y.take(y.len() as int) =~= y);
}

/// Scanning a concatenation scans the first part, then the second from the
/// state the first part left behind.
proof fn lemma_scan_concat(s: Seq<char>, t: Seq<char>, out: Seq<char>, prev: char, com: bool)
    ensures
        scan(s + t, out, prev, com).0 == scan(
            t,
            scan(s, out, prev, com).0,
            scan(s, out, prev, com).1,
            scan(s, out, prev, com).2,
        ).0,
        scan(s + t, out, prev, com).1 == scan(
            t,
            scan(s, out, prev, com).0,
            scan(s, out, prev, com).1,
            scan(s, out, prev, com).2,
        ).1,
        scan(s + t, out, prev, com).2 == scan(
            t,
            scan(s, out, prev, com).0,
            scan(s, out, prev, com).1,
            scan(s, out, prev, com).2,
        ).2,
    decreases s.len(),
{
    if s.len() == 0 {
        assert(s + t =~= t);
    } else {
        let st = scan_step(out, prev, com, s[0]);
        assert((s + t)[0] == s[0]);
        assert((s + t).drop_first() =~= s.drop_first() + t);
        assert(scan(s + t, out, prev, com) == scan(s.drop_first() + t, st.0, st.1, st.2));
        lemma_scan_concat(s.drop_first(), t, st.0, st.1, st.2);
    }
}

/// The least index at which `y` has a defect.
proof fn lemma_first_defect(y: Seq<char>, i: int) -> (k: int)
    requires
        0 <= i <= y.len(),
        exists|j: int| i <= j < y.len() && defect_at(y, j),
    ensures
        i <= k < y.len(),
        defect_at(y, k),
        forall|j: int| i <= j < k ==> !defect_at(y, j),
    decreases y.len() - i,
{
    if defect_at(y, i) {
        i
    } else {
        let j = choose|j: int| i <= j < y.len() && defect_at(y, j);
        assert(i + 1 <= j < y.len() && defect_at(y, j));
        lemma_first_defect(y, i + 1)
    }
}

/// At its first defect the scan stops copying: the step there does not grow
/// the output, so the whole scan comes out strictly shorter than `y`.
proof fn lemma_defect_shrinks(y: Seq<char>)
    requires
        exists|j: int| 0 <= j < y.len() && defect_at(y, j),
    ensures
        minify_spec(y).len() < y.len(),
{
    let k = lemma_first_defect(y, 0);
    lemma_scan_copies_clean_prefix(y, k);
    let ch = y[k];
    let prev = prev_of(y, k);
    lemma_scan_snoc(y.take(k), Seq::<char>::empty(), ' ', false, ch);
    assert(y.take(k + 1) =~= y.take(k).push(ch));
    let st = scan_step(y.take(k), prev, false, ch);
    // Whichever defect holds at k, the step emits at most as many characters
    // as it retracts: the output after it is no longer than k.
    assert(st.0.len() <= k) by {
        if k >= 1 {
            assert(y.take(k).last() == y[k - 1]);
        }
        assert(y.take(k).len() == k);
        assert(defect_at(y, k));
    }
    assert(y =~= y.take(k + 1) + y.skip(k + 1));
    lemma_scan_concat(y.take(k + 1), y.skip(k + 1), Seq::<char>::empty(), ' ', false);
    lemma_scan_len(y.skip(k + 1), st.0, st.1, st.2);
    assert(minify_spec(y).len() <= st.0.len() + y.skip(k + 1).len());
}

/// A fixed point of the minifier is minified: if one pass gives a text back
/// unchanged, no defect was left in it.
pub proof fn lemma_fixed_point_is_minified(y: Seq<char>)
    requires
        minify_spec(y) == y,
    ensures
        is_minified(y),
{
    lemma_minified_defect_equiv(y);
    if exists|j: int| 0 <= j < y.len() && defect_at(y, j) {
        lemma_defect_shrinks(y);
        assert(false);
    }
}

/// A second pass over any input either changes nothing or comes out strictly
/// shorter: once the first pass left no defect behind it copies its input,
/// and otherwise it keeps removing.
pub proof fn lemma_second_pass_shrinks_or_fixes(x: Seq<char>)
    ensures
        minify_spec(minify_spec(x)) == minify_spec(x) || minify_spec(minify_spec(x)).len()
            < minify_spec(x).len(),
{
    let y = minify_spec(x);
    lemma_minified_defect_equiv(y);
    if is_minified(y) {
        lemma_minified_fixed_point(y);
    } else {
        lemma_defect_shrinks(y);
    }
}

/// Idempotence: a second pass changes nothing, whenever the first pass left a
/// minified text. The scan does not always do so — dropping characters can
/// uncover a new adjacency that only another pass would remove, as in a
/// doubled semicolon before a closing brace — and by
/// `lemma_fixed_point_is_minified` the condition required here excludes
/// exactly the inputs on which a second pass still finds work.
pub proof fn lemma_minify_idempotent(x: Seq<char>)
    requires
        is_minified(minify_spec(x)),
    ensures
        minify_spec(minify_spec(x)) == minify_spec(x),
{
    lemma_minified_fixed_point(minify_spec(x));
}

} // verus!

