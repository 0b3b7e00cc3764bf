use vstd::prelude::*;

verus! {

/// The characters after which a following space carries no meaning in CSS
/// syntax: a space that comes right after one of these is dropped, and a
/// space right before one of them is redundant as well.
pub open spec fn is_special(c: char) -> bool {
    c == '{' || c == '}' || c == ':' || c == ';' || c == ' ' || c == '\n' || c == '!' || c == '>'
}

/// `s` names a `.css` file: the whole string ends in the literal suffix
/// `.css`, so a bare `.css` is accepted and `.cssx` or `a.css.bak` are not.
pub open spec fn is_css_filename(s: Seq<char>) -> bool {
    &&& s.len() >= 4
    &&& s[s.len() - 4] == '.'
    &&& s[s.len() - 3] == 'c'
    &&& s[s.len() - 2] == 's'
    &&& s[s.len() - 1] == 's'
}

/// Drop the last character of `out` if it has one; an empty buffer is left
/// as it is.
pub open spec fn drop_last_opt(out: Seq<char>) -> Seq<char> {
    if out.len() > 0 {
        out.drop_last()
    } else {
        out
    }
}

/// Append `ch` to the output buffer, first discarding a trailing space that
/// would sit right before a special character, or a trailing semicolon that
/// would sit right before a closing brace.
pub open spec fn emit(out: Seq<char>, ch: char) -> Seq<char> {
    if out.len() > 0 && ((is_special(ch) && out.last() == ' ') || (ch == '}' && out.last() == ';')) {
        out.drop_last().push(ch)
    } else {
        out.push(ch)
    }
}

/// One step of the transducer on the character `ch`, given the output built
/// so far, the previous raw character `prev` (a space before the first step),
/// and the comment flag `com`:
/// on `*` right after `/` outside a comment, the speculatively emitted last
/// character is retracted and the comment begins; a line break, a space after
/// a special character, and anything inside a comment are suppressed; `/`
/// right after `*` ends the comment (that closing `/` is itself suppressed,
/// since the flag flips only after the suppression test); everything else is
/// appended through `emit`.
pub open spec fn scan_step(out: Seq<char>, prev: char, com: bool, ch: char) -> (Seq<char>, char, bool) {
    let enter = !com && ch == '*' && prev == '/';
    let out1 = if enter {
        drop_last_opt(out)
    } else {
        out
    };
    let com1 = com || enter;
    let suppressed = ch == '\n' || (ch == ' ' && is_special(prev)) || com1;
    let com2 = if com1 && ch == '/' && prev == '*' {
        false
    } else {
        com1
    };
    let out2 = if suppressed {
        out1
    } else {
        emit(out1, ch)
    };
    (out2, ch, com2)
}

/// Run the transducer over all of `s`, starting from the given state, and
/// return the final state.
pub open spec fn scan(s: Seq<char>, out: Seq<char>, prev: char, com: bool) -> (Seq<char>, char, bool)
    decreases s.len(),
{
    if s.len() == 0 {
        (out, prev, com)
    } else {
        let st = scan_step(out, prev, com, s[0]);
        scan(s.drop_first(), st.0, st.1, st.2)
    }
}

/// The minified form of `s`: one forward scan from an empty output buffer,
/// a space as the previous character, and the comment flag off.
pub open spec fn minify_spec(s: Seq<char>) -> Seq<char> {
    scan(s, Seq::<char>::empty(), ' ', false).0
}

/// Scanning one more character is one more step.
pub proof fn lemma_scan_snoc(s: Seq<char>, out: Seq<char>, prev: char, com: bool, ch: char)
    ensures
        scan(s.push(ch), out, prev, com).0 == scan_step(
            scan(s, out, prev, com).0,
            scan(s, out, prev, com).1,
            scan(s, out, prev, com).2,
            ch,
        ).0,
        scan(s.push(ch), out, prev, com).1 == scan_step(
            scan(s, out, prev, com).0,
            scan(s, out, prev, com).1,
            scan(s, out, prev, com).2,
            ch,
        ).1,
        scan(s.push(ch), out, prev, com).2 == scan_step(
            scan(s, out, prev, com).0,
            scan(s, out, prev, com).1,
            scan(s, out, prev, com).2,
            ch,
        ).2,
    decreases s.len(),
{
    if s.len() == 0 {
        let st = scan_step(out, prev, com, ch);
        assert(s.push(ch)[0] == ch);
        assert(s.push(ch).drop_first() =~= Seq::<char>::empty());
        assert(scan(s.push(ch), out, prev, com) == scan(s.push(ch).drop_first(), st.0, st.1, st.2));
        assert(scan(s.push(ch).drop_first(), st.0, st.1, st.2).0 == st.0);
    } else {
        let st = scan_step(out, prev, com, s[0]);
        assert(s.push(ch)[0] == s[0]);
        assert(s.push(ch).drop_first() =~= s.drop_first().push(ch));
        assert(scan(s.push(ch), out, prev, com) == scan(s.drop_first().push(ch), st.0, st.1, st.2));
        lemma_scan_snoc(s.drop_first(), st.0, st.1, st.2, ch);
    }
}

/// A scan grows the output by at most one character per input character.
pub proof fn lemma_scan_len(s: Seq<char>, out: Seq<char>, prev: char, com: bool)
    ensures
        scan(s, out, prev, com).0.len() <= out.len() + s.len(),
    decreases s.len(),
{
    if s.len() > 0 {
        let st = scan_step(out, prev, com, s[0]);
        lemma_scan_len(s.drop_first(), st.0, st.1, st.2);
    }
}

/// Length non-increase: the minified form of a text is never longer than the
/// text itself.
pub proof fn lemma_minify_len(x: Seq<char>)
    ensures
        minify_spec(x).len() <= x.len(),
{
    lemma_scan_len(x, Seq::<char>::empty(), ' ', false);
}

/// Exact test used by the transducer for membership in the special set.
fn is_special_char(c: char) -> (b: bool)
    ensures
        b == is_special(c),
{
    c == '{' || c == '}' || c == ':' || c == ';' || c == ' ' || c == '\n' || c == '!' || c == '>'
}

/// Relies on `String::from_iter` (through `collect`): the string holds
/// exactly the characters of `v`, in order.
#[verifier::external_body]
pub(crate) fn chars_to_string(v: Vec<char>) -> (s: String)
    ensures
        s@ == v@,
{
    v.into_iter().collect()
}

/// Minify a stylesheet in one forward scan: line breaks go away, spaces that
/// touch a special character go away, comments go away, and a semicolon right
/// before a closing brace goes away; everything else is kept in order.
pub fn minify_css(input: &str) -> (out: String)
    ensures
        out@ == minify_spec(input@),
        out@.len() <= input@.len(),
{
    let n: usize = input.unicode_len();
    let mut out: Vec<char> = Vec::new();
    let mut prev: char = ' ';
    let mut com: bool = false;
    let mut i: usize = 0;
    while i < n
        invariant
            n == input@.len(),
            i <= n,
            out@ == scan(input@.take(i as int), Seq::<char>::empty(), ' ', false).0,
            prev == scan(input@.take(i as int), Seq::<char>::empty(), ' ', false).1,
            com == scan(input@.take(i as int), Seq::<char>::empty(), ' ', false).2,
        decreases n - i,
    {
        let ch = input.get_char(i);
        proof {
            lemma_scan_snoc(input@.take(i as int), Seq::<char>::empty(), ' ', false, ch);
            assert(input@.take(i + 1 as int) =~= input@.take(i as int).push(ch));
        }
        if !com && ch == '*' && prev == '/' {
            com = true;
            out.pop();
            proof {
                assert(out@ =~= drop_last_opt(scan(input@.take(i as int), Seq::<char>::empty(), ' ', false).0));
            }
        }
        let suppressed = ch == '\n' || (ch == ' ' && is_special_char(prev)) || com;
        if com && ch == '/' && prev == '*' {
            com = false;
        }
        if !suppressed {
            if out.len() > 0 {
                let last = out[out.len() - 1];
                if (is_special_char(ch) && last == ' ') || (ch == '}' && last == ';') {
                    out.pop();
                }
            }
            out.push(ch);
        }
        prev = ch;
        i = i + 1;
    }
    proof {
        assert(input@.take(n as int) =~= input@);
        lemma_minify_len(input@);
    }
    chars_to_string(out)
}

/// Admission check applied to a path before it is handed to the minifier:
/// the whole string, not a substring, must end in `.css`.
pub fn validate_filename(input: &str) -> (b: bool)
    ensures
        b == is_css_filename(input@),
{
    let n: usize = input.unicode_len();
    if n < 4 {
        return false;
    }
    let c0 = input.get_char(n - 4);
    let c1 = input.get_char(n - 3);
    let c2 = input.get_char(n - 2);
    let c3 = input.get_char(n - 1);
    c0 == '.' && c1 == 'c' && c2 == 's' && c3 == 's'
}

} // verus!
