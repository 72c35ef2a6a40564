use vstd::prelude::*;

use crate::shader::ShaderStage;

verus! {

/// A result together with the warnings raised while producing it.
pub struct WarningResult<T, W, E> {
    pub result: Result<T, E>,
    pub warnings: Vec<W>,
}

impl<T, W, E> WarningResult<T, W, E> {
    pub(crate) fn new(result: Result<T, E>, warnings: Vec<W>) -> (r: Self)
        ensures
            r.result == result,
            r.warnings == warnings,
    {
        WarningResult { result, warnings }
    }

    /// The successful result; only a successful result can be unwrapped.
    pub fn unwrap(self) -> (r: T)
        requires
            self.result is Ok,
        ensures
            self.result == Ok::<T, E>(r),
    {
        match self.result {
            Ok(t) => t,
            Err(_) => vstd::pervasive::unreached(),
        }
    }
}

/// A compiled SPIR-V module and the stage it was compiled for.
pub struct SpirvShader {
    pub binary: Vec<u32>,
    pub shader_stage: ShaderStage,
}

impl SpirvShader {
    /// Wraps a module compiled for the given stage.
    pub fn from_binary(binary: Vec<u32>, stage: ShaderStage) -> (r: SpirvShader)
        ensures
            r.binary == binary,
            r.shader_stage == stage,
    {
        SpirvShader { binary: binary, shader_stage: stage }
    }
}

/// The lines of a text separated by `'\n'`, as `str::split` yields them: a
/// text with `k` separators has `k + 1` lines, the last one possibly empty.
pub open spec fn split_lines(s: Seq<char>) -> Seq<Seq<char>>
    decreases s.len(),
{
    if s.len() == 0 {
        seq![Seq::<char>::empty()]
    } else {
        let prev = split_lines(s.drop_last());
        if s.last() == '\n' {
            prev.push(Seq::<char>::empty())
        } else {
            prev.update(prev.len() - 1, prev.last().push(s.last()))
        }
    }
}

proof fn lemma_split_lines_nonempty(s: Seq<char>)
    ensures
        split_lines(s).len() >= 1,
    decreases s.len(),
{
    if s.len() > 0 {
        lemma_split_lines_nonempty(s.drop_last());
    }
}

/// The model of a list of strings.
pub open spec fn strings_view(v: Seq<String>) -> Seq<Seq<char>> {
    Seq::new(v.len(), |i: int| v[i]@)
}

/// Appends one character to a string through std's `String::push`; the
/// contract claims what std documents of it: the string afterwards is the
/// string before with the character added at its end.
#[verifier::external_body]
fn push_char(s: &mut String, c: char)
    ensures
        final(s)@ == old(s)@.push(c),
{
    s.push(c);
}

/// The warnings of a compilation: none when the compiler counted none,
/// otherwise each line of the compiler's warning text.
pub fn warning_lines(num_warnings: u32, messages: &str) -> (r: Vec<String>)
    ensures
        num_warnings == 0 ==> r@.len() == 0,
        num_warnings != 0 ==> strings_view(r@) == split_lines(messages@),
{
    if num_warnings == 0 {
        return Vec::new();
    }
    let mut lines: Vec<String> = Vec::new();
    let mut current = String::new();
    let ghost text = messages@;
    for c in it: messages.chars()
        invariant
            it.seq() == text,
            ({
                let parts = split_lines(text.take(it.index()));
                &&& parts.len() == lines@.len() + 1
                &&& strings_view(lines@) == parts.drop_last()
                &&& current@ == parts.last()
            }),
    {
        let ghost before = text.take(it.index());
        let ghost after = text.take(it.index() + 1);
        proof {
            assert(after.drop_last() =~= before);
            assert(after.last() == c);
            lemma_split_lines_nonempty(before);
        }
        if c == '\n' {
            let ghost old_lines = lines@;
            let finished = current;
            lines.push(finished);
            current = String::new();
            assert(strings_view(lines@) =~= strings_view(old_lines).push(split_lines(before).last()));
            assert(split_lines(after).drop_last() =~= split_lines(before));
        } else {
            push_char(&mut current, c);
            assert(split_lines(after).drop_last() =~= split_lines(before).drop_last());
        }
    }
    let ghost parts = split_lines(text);
    assert(text.take(text.len() as int) =~= text);
    let ghost old_lines = lines@;
    lines.push(current);
    assert(strings_view(lines@) =~= strings_view(old_lines).push(parts.last()));
    assert(parts =~= parts.drop_last().push(parts.last()));
    lines
}


/// The lines joined back with `'\n'` between them.
pub open spec fn join_lines(lines: Seq<Seq<char>>) -> Seq<char>
    decreases lines.len(),
{
    if lines.len() == 0 {
        Seq::empty()
    } else if lines.len() == 1 {
        lines[0]
    } else {
        join_lines(lines.drop_last()) + seq!['\n'] + lines.last()
    }
}

/// The number of `'\n'` in a text.
pub open spec fn count_newlines(s: Seq<char>) -> nat
    decreases s.len(),
{
    if s.len() == 0 {
        0
    } else {
        count_newlines(s.drop_last()) + if s.last() == '\n' { 1nat } else { 0nat }
    }
}

proof fn lemma_join_extend_last(lines: Seq<Seq<char>>, c: char)
    requires
        lines.len() >= 1,
    ensures
        join_lines(lines.update(lines.len() - 1, lines.last().push(c))) == join_lines(lines).push(c),
{
    let l2 = lines.update(lines.len() - 1, lines.last().push(c));
    if lines.len() == 1 {
    } else {
        assert(l2.drop_last() =~= lines.drop_last());
        assert(join_lines(lines).push(c) =~= join_lines(lines.drop_last()) + seq!['\n'] + lines.last().push(c));
    }
}

/// Splitting a text into lines and joining the lines with `'\n'` gives the
/// text back: no character is lost or added by the split.
pub proof fn lemma_split_then_join(s: Seq<char>)
    ensures
        join_lines(split_lines(s)) == s,
    decreases s.len(),
{
    if s.len() == 0 {
    } else {
        let p = s.drop_last();
        lemma_split_then_join(p);
        lemma_split_lines_nonempty(p);
        if s.last() == '\n' {
            let l = split_lines(p);
            assert(split_lines(s).drop_last() =~= l);
            assert(join_lines(split_lines(s)) =~= join_lines(l) + seq!['\n'] + Seq::<char>::empty());
            assert(s =~= p + seq!['\n']);
        } else {
            lemma_join_extend_last(split_lines(p), s.last());
            assert(s =~= p.push(s.last()));
        }
    }
}

/// A text with `k` line breaks splits into `k + 1` lines.
pub proof fn lemma_line_count(s: Seq<char>)
    ensures
        split_lines(s).len() == count_newlines(s) + 1,
    decreases s.len(),
{
    if s.len() > 0 {
        lemma_line_count(s.drop_last());
    }
}

/// No line holds a line break.
pub proof fn lemma_lines_hold_no_break(s: Seq<char>)
    ensures
        forall|i: int, j: int|
            0 <= i < split_lines(s).len() && 0 <= j < split_lines(s)[i].len() ==> #[trigger] split_lines(s)[i][j] != '\n',
    decreases s.len(),
{
    if s.len() > 0 {
        let p = s.drop_last();
        lemma_lines_hold_no_break(p);
        lemma_split_lines_nonempty(p);
        let l = split_lines(p);
        if s.last() != '\n' {
            assert forall|i: int, j: int|
                0 <= i < split_lines(s).len() && 0 <= j < split_lines(s)[i].len() implies #[trigger] split_lines(s)[i][j] != '\n' by {
                if i == l.len() - 1 && j == l.last().len() {
                } else if i == l.len() - 1 {
                    assert(split_lines(s)[i][j] == l[i][j]);
                } else {
                    assert(split_lines(s)[i] == l[i]);
                }
            }
        } else {
            assert forall|i: int, j: int|
                0 <= i < split_lines(s).len() && 0 <= j < split_lines(s)[i].len() implies #[trigger] split_lines(s)[i][j] != '\n' by {
                if i < l.len() {
                    assert(split_lines(s)[i] == l[i]);
                }
            }
        }
    }
}

} // verus!
