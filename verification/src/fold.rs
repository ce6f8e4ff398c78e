//! Folding of symbolized stacks into collapsed flame-graph lines: frames
//! joined by `;`, one space, the weight in decimal, a newline.

use vstd::prelude::*;
use vstd::string::*;
use crate::render::{dec_digits, u64_to_dec, lemma_dec_digits_are_digits};

verus! {

/// How many times `c` occurs in `s`.
pub open spec fn count_char(s: Seq<char>, c: char) -> int
    decreases s.len(),
{
    if s.len() == 0 {
        0
    } else {
        count_char(s.drop_last(), c) + (if s.last() == c {
            1int
        } else {
            0int
        })
    }
}

/// Occurrence counts add over concatenation.
pub proof fn lemma_count_char_add(a: Seq<char>, b: Seq<char>, c: char)
    ensures
        count_char(a + b, c) == count_char(a, c) + count_char(b, c),
    decreases b.len(),
{
    if b.len() == 0 {
        assert(a + b =~= a);
    } else {
        assert((a + b).drop_last() =~= a + b.drop_last());
        assert((a + b).last() == b.last());
        lemma_count_char_add(a, b.drop_last(), c);
    }
}

/// A sequence without `c` counts zero.
pub proof fn lemma_count_char_zero(s: Seq<char>, c: char)
    requires
        forall|i: int| 0 <= i < s.len() ==> s[i] != c,
    ensures
        count_char(s, c) == 0,
    decreases s.len(),
{
    if s.len() > 0 {
        lemma_count_char_zero(s.drop_last(), c);
    }
}

/// The frames of one folded line, joined by `;`.
pub open spec fn join_frames(fs: Seq<Seq<char>>) -> Seq<char>
    decreases fs.len(),
{
    if fs.len() == 0 {
        Seq::empty()
    } else if fs.len() == 1 {
        fs[0]
    } else {
        join_frames(fs.drop_last()) + seq![';'] + fs.last()
    }
}

/// One folded line: the joined frames, a space, the decimal weight, a
/// newline.
pub open spec fn spec_folded_line(fs: Seq<Seq<char>>, weight: u64) -> Seq<char> {
    join_frames(fs) + seq![' '] + dec_digits(weight as int) + seq!['\n']
}

/// A character absent from every frame and distinct from `;` is absent
/// from the joined frames.
pub proof fn lemma_join_without(fs: Seq<Seq<char>>, c: char)
    requires
        c != ';',
        forall|i: int| 0 <= i < fs.len() ==> count_char(#[trigger] fs[i], c) == 0,
    ensures
        count_char(join_frames(fs), c) == 0,
    decreases fs.len(),
{
    if fs.len() == 0 {
        assert(join_frames(fs) =~= Seq::<char>::empty());
    } else if fs.len() == 1 {
    } else {
        lemma_join_without(fs.drop_last(), c);
        lemma_count_char_add(join_frames(fs.drop_last()), seq![';'], c);
        lemma_count_char_zero(seq![';'], c);
        lemma_count_char_add(join_frames(fs.drop_last()) + seq![';'], fs.last(), c);
    }
}

/// Law: a folded line of frames that are free of separators ends in its
/// only newline and carries exactly one space — so exactly one weight
/// token follows the frames, and the weight is a nonempty numeral.
pub proof fn lemma_folded_line_shape(fs: Seq<Seq<char>>, weight: u64)
    requires
        fs.len() >= 1,
        forall|i: int| 0 <= i < fs.len() ==> count_char(#[trigger] fs[i], ' ') == 0,
        forall|i: int| 0 <= i < fs.len() ==> count_char(#[trigger] fs[i], '\n') == 0,
    ensures
        count_char(spec_folded_line(fs, weight), ' ') == 1,
        count_char(spec_folded_line(fs, weight), '\n') == 1,
        spec_folded_line(fs, weight).last() == '\n',
        dec_digits(weight as int).len() >= 1,
{
    let line = spec_folded_line(fs, weight);
    let join = join_frames(fs);
    let digits = dec_digits(weight as int);
    lemma_dec_digits_are_digits(weight as int);
    assert forall|c: char| c == ' ' || c == '\n' implies count_char(line, c) == count_char(
        seq![' '],
        c,
    ) + count_char(seq!['\n'], c) by {
        lemma_join_without(fs, c);
        lemma_count_char_zero(digits, c);
        lemma_count_char_add(join, seq![' '], c);
        lemma_count_char_add(join + seq![' '], digits, c);
        lemma_count_char_add(join + seq![' '] + digits, seq!['\n'], c);
    }
    lemma_count_singleton(' ', ' ');
    lemma_count_singleton(' ', '\n');
    lemma_count_singleton('\n', ' ');
    lemma_count_singleton('\n', '\n');
    assert(line.last() == '\n');
}

/// Occurrences of `c` in a one-character sequence.
proof fn lemma_count_singleton(c0: char, c: char)
    ensures
        count_char(seq![c0], c) == (if c0 == c {
            1int
        } else {
            0int
        }),
{
    let s = seq![c0];
    assert(s.len() == 1);
    assert(s.last() == c0);
    assert(s.drop_last() =~= Seq::<char>::empty());
    assert(count_char(s.drop_last(), c) == 0);
}

/// Builds one folded line from the frame names, root first, and the
/// sample's weight.
pub fn fold_line(frames: &Vec<String>, weight: u64) -> (line: String)
    requires
        frames@.len() >= 1,
    ensures
        line@ == spec_folded_line(frames@.map_values(|f: String| f@), weight),
{
    let ghost views = frames@.map_values(|f: String| f@);
    let mut line = frames[0].clone();
    let mut i: usize = 1;
    while i < frames.len()
        invariant
            1 <= i <= frames@.len(),
            views == frames@.map_values(|f: String| f@),
            line@ == join_frames(views.take(i as int)),
        decreases frames@.len() - i,
    {
        line.append(";");
        line.append(frames[i].as_str());
        proof {
            reveal_strlit(";");
            assert(";"@ =~= seq![';']);
            assert(views.take(i + 1).drop_last() =~= views.take(i as int));
            assert(views.take(i + 1).last() == frames@[i as int]@);
        }
        i = i + 1;
    }
    proof {
        assert(views.take(frames@.len() as int) =~= views);
    }
    line.append(" ");
    let digits = u64_to_dec(weight);
    line.append(digits.as_str());
    line.append("\n");
    proof {
        reveal_strlit(" ");
        reveal_strlit("\n");
        assert(" "@ =~= seq![' ']);
        assert("\n"@ =~= seq!['\n']);
    }
    line
}

/// The accumulated folded output of one session.
pub struct Folder {
    out: String,
}

impl Folder {
    /// The text accumulated so far.
    pub closed spec fn spec_out(&self) -> Seq<char> {
        self.out@
    }

    /// A fresh folder holds no output at all: a session that drains no
    /// records emits nothing.
    pub fn new() -> (f: Folder)
        ensures
            f.spec_out() == Seq::<char>::empty(),
    {
        Folder { out: String::new() }
    }

    /// Appends one folded line for a stack with the given weight. Stacks
    /// without frames are not emitted at all.
    pub fn push_stack(&mut self, frames: &Vec<String>, weight: u64)
        ensures
            frames@.len() == 0 ==> final(self).spec_out() == old(self).spec_out(),
            frames@.len() > 0 ==> final(self).spec_out() == old(self).spec_out()
                + spec_folded_line(frames@.map_values(|f: String| f@), weight),
    {
        if frames.len() == 0 {
            return ;
        }
        let line = fold_line(frames, weight);
        self.out.append(line.as_str());
    }

    /// Hands the folded text over.
    pub fn into_output(self) -> (r: String)
        ensures
            r@ == self.spec_out(),
    {
        self.out
    }
}

} // verus!
