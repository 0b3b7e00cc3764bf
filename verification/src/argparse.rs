use vstd::prelude::*;

use crate::minify::chars_to_string;

verus! {

/// The words of `s` that are separated by spaces, read from the front with
/// `cur` as the word begun so far: a space closes the current word (an empty
/// one is not kept), anything else extends it.
pub open spec fn split_acc(s: Seq<char>, cur: Seq<char>) -> Seq<Seq<char>>
    decreases s.len(),
{
    if s.len() == 0 {
        if cur.len() > 0 {
            seq![cur]
        } else {
            Seq::<Seq<char>>::empty()
        }
    } else if s[0] == ' ' {
        if cur.len() > 0 {
            seq![cur] + split_acc(s.drop_first(), Seq::<char>::empty())
        } else {
            split_acc(s.drop_first(), Seq::<char>::empty())
        }
    } else {
        split_acc(s.drop_first(), cur.push(s[0]))
    }
}

/// The parameters on one line: its maximal runs of non-space characters, in
/// order, with the empty pieces between consecutive spaces left out.
pub open spec fn split_params_spec(s: Seq<char>) -> Seq<Seq<char>> {
    split_acc(s, Seq::<char>::empty())
}

/// Split one line of input into the path parameters it carries: the words
/// separated by spaces, with empty pieces dropped.
pub fn split_line_params(line: &str) -> (out: Vec<String>)
    ensures
        out.deep_view() == split_params_spec(line@),
{
    let n: usize = line.unicode_len();
    let mut out: Vec<String> = Vec::new();
    let mut cur: Vec<char> = Vec::new();
    let mut i: usize = 0;
    proof {
        assert(line@.skip(0) =~= line@);
        assert(out.deep_view() =~= Seq::<Seq<char>>::empty());
        assert(Seq::<Seq<char>>::empty() + split_acc(line@, Seq::<char>::empty()) =~= split_acc(
            line@,
            Seq::<char>::empty(),
        ));
    }
    while i < n
        invariant
            n == line@.len(),
            i <= n,
            out.deep_view() + split_acc(line@.skip(i as int), cur@) == split_params_spec(line@),
        decreases n - i,
    {
        let ch = line.get_char(i);
        proof {
            assert(line@.skip(i as int)[0] == ch);
            assert(line@.skip(i as int).drop_first() =~= line@.skip(i + 1 as int));
        }
        if ch == ' ' {
            if cur.len() > 0 {
                let ghost old_out = out.deep_view();
                let ghost word = cur@;
                let param = chars_to_string(cur);
                cur = Vec::new();
                out.push(param);
                proof {
                    assert(out.deep_view() =~= old_out.push(word));
                    assert(old_out.push(word) =~= old_out + seq![word]);
                    assert(cur@ =~= Seq::<char>::empty());
                    assert((old_out + seq![word]) + split_acc(line@.skip(i + 1 as int), cur@)
                        =~= old_out + (seq![word] + split_acc(line@.skip(i + 1 as int), cur@)));
                }
            } else {
                proof {
                    assert(cur@ =~= Seq::<char>::empty());
                }
            }
        } else {
            cur.push(ch);
        }
        i = i + 1;
    }
    proof {
        assert(line@.skip(n as int) =~= Seq::<char>::empty());
    }
    if cur.len() > 0 {
        let ghost old_out = out.deep_view();
        let ghost word = cur@;
        let param = chars_to_string(cur);
        out.push(param);
        proof {
            assert(out.deep_view() =~= old_out.push(word));
            assert(old_out.push(word) =~= old_out + seq![word]);
        }
    } else {
        proof {
            assert(out.deep_view() + Seq::<Seq<char>>::empty() =~= out.deep_view());
        }
    }
    out
}

} // verus!
