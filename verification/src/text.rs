//! Character-sequence helpers: building a `String` from characters, padding,
//! and joining rendered rows with newlines.

use vstd::prelude::*;

verus! {

/// `n` copies of the character `c`.
pub open spec fn repeat_char(c: char, n: nat) -> Seq<char> {
    Seq::new(n, |i| c)
}

/// Rows joined by single newline characters, with no trailing newline.
pub open spec fn join_lines(lines: Seq<Seq<char>>) -> Seq<char>
    decreases lines.len(),
{
    if lines.len() == 0 {
        Seq::empty()
    } else if lines.len() == 1 {
        lines[0]
    } else {
        join_lines(lines.drop_last()) + seq!['\n'] + lines.last()
    }
}

/// Relies on `String::push`: appends exactly the given character.
#[verifier::external_body]
fn push_char(s: &mut String, c: char)
    ensures
        final(s)@ == old(s)@.push(c),
{
    s.push(c);
}

/// Builds the owned string spelling out the given characters.
pub fn chars_to_string(v: &Vec<char>) -> (s: String)
    ensures
        s@ == v@,
{
    let mut s = String::new();
    let mut i: usize = 0;
    while i < v.len()
        invariant
            0 <= i <= v.len(),
            s@ == v@.take(i as int),
        decreases v.len() - i,
    {
        push_char(&mut s, v[i]);
        proof {
            assert(v@.take(i as int).push(v@[i as int]) =~= v@.take(i + 1));
        }
        i = i + 1;
    }
    proof {
        assert(v@.take(v@.len() as int) =~= v@);
    }
    s
}

/// Appends `n` copies of `c` to a character buffer.
pub fn push_repeat(out: &mut Vec<char>, c: char, n: usize)
    ensures
        final(out)@ == old(out)@ + repeat_char(c, n as nat),
{
    let mut i: usize = 0;
    while i < n
        invariant
            0 <= i <= n,
            out@ == old(out)@ + repeat_char(c, i as nat),
        decreases n - i,
    {
        out.push(c);
        proof {
            assert(old(out)@ + repeat_char(c, i as nat) + seq![c] =~= old(out)@ + repeat_char(
                c,
                (i + 1) as nat,
            ));
        }
        i = i + 1;
    }
}

/// How many times `c` occurs in `s`.
pub open spec fn count_char(s: Seq<char>, c: char) -> int
    decreases s.len(),
{
    if s.len() == 0 {
        0
    } else {
        count_char(s.drop_last(), c) + if s.last() == c {
            1int
        } else {
            0int
        }
    }
}

/// Occurrence counts add up over concatenation.
pub proof fn lemma_count_char_concat(a: Seq<char>, b: Seq<char>, c: char)
    ensures
        count_char(a + b, c) == count_char(a, c) + count_char(b, c),
    decreases b.len(),
{
    if b.len() == 0 {
        assert(a + b =~= a);
    } else {
        lemma_count_char_concat(a, b.drop_last(), c);
        assert((a + b).drop_last() =~= a + b.drop_last());
        assert((a + b).last() == b.last());
    }
}

/// A sequence free of `c` counts zero occurrences of it.
pub proof fn lemma_count_char_absent(s: Seq<char>, c: char)
    requires
        forall|i: int| 0 <= i < s.len() ==> s[i] != c,
    ensures
        count_char(s, c) == 0,
    decreases s.len(),
{
    if s.len() > 0 {
        lemma_count_char_absent(s.drop_last(), c);
    }
}

/// Joining `n` newline-free rows puts exactly `n - 1` newlines in the text.
pub proof fn lemma_join_lines_newlines(lines: Seq<Seq<char>>)
    requires
        lines.len() > 0,
        forall|i: int, k: int|
            0 <= i < lines.len() && 0 <= k < lines[i].len() ==> #[trigger] lines[i][k] != '\n',
    ensures
        count_char(join_lines(lines), '\n') == lines.len() - 1,
    decreases lines.len(),
{
    if lines.len() == 1 {
        lemma_count_char_absent(lines[0], '\n');
    } else {
        lemma_join_lines_newlines(lines.drop_last());
        lemma_count_char_concat(join_lines(lines.drop_last()), seq!['\n'], '\n');
        lemma_count_char_concat(join_lines(lines.drop_last()) + seq!['\n'], lines.last(), '\n');
        lemma_count_char_absent(lines.last(), '\n');
        assert(seq!['\n'].drop_last() =~= Seq::<char>::empty());
        assert(seq!['\n'].len() == 1);
        assert(seq!['\n'].last() == '\n');
        assert(count_char(Seq::<char>::empty(), '\n') == 0);
        assert(count_char(seq!['\n'], '\n') == 1);
    }
}

/// A character of any row occurs in the joined text.
pub proof fn lemma_join_lines_contains(lines: Seq<Seq<char>>, i: int, c: char)
    requires
        0 <= i < lines.len(),
        lines[i].contains(c),
    ensures
        join_lines(lines).contains(c),
    decreases lines.len(),
{
    if lines.len() == 1 {
    } else if i == lines.len() - 1 {
        let j = choose|j: int| 0 <= j < lines[i].len() && lines[i][j] == c;
        let w = join_lines(lines.drop_last()).len() + 1 + j;
        assert(join_lines(lines)[w] == c);
    } else {
        lemma_join_lines_contains(lines.drop_last(), i, c);
        let j = choose|j: int|
            0 <= j < join_lines(lines.drop_last()).len() && join_lines(lines.drop_last())[j] == c;
        assert(join_lines(lines)[j] == c);
    }
}

/// Every character of the joined text is a newline or comes from some row.
pub proof fn lemma_join_lines_chars(lines: Seq<Seq<char>>, c: char)
    requires
        join_lines(lines).contains(c),
    ensures
        c == '\n' || exists|i: int| 0 <= i < lines.len() && #[trigger] lines[i].contains(c),
    decreases lines.len(),
{
    if c != '\n' {
        if lines.len() == 1 {
            assert(lines[0].contains(c));
        } else {
            let k = choose|k: int|
                0 <= k < join_lines(lines).len() && join_lines(lines)[k] == c;
            let front = join_lines(lines.drop_last());
            if k < front.len() {
                assert(front[k] == c);
                assert(front.contains(c));
                lemma_join_lines_chars(lines.drop_last(), c);
                let i = choose|i: int|
                    0 <= i < lines.drop_last().len() && #[trigger] lines.drop_last()[i].contains(c);
                assert(lines[i].contains(c));
            } else {
                assert(k > front.len());
                assert(lines.last()[k - front.len() - 1] == c);
                assert(lines[lines.len() - 1].contains(c));
            }
        }
    }
}

/// The joined text of non-empty rows is non-empty.
pub proof fn lemma_join_lines_len(lines: Seq<Seq<char>>)
    ensures
        join_lines(lines).len() >= if lines.len() == 0 {
            0int
        } else {
            lines.last().len() + lines.len() - 1
        },
    decreases lines.len(),
{
    if lines.len() > 1 {
        lemma_join_lines_len(lines.drop_last());
    }
}

} // verus!
