//! The simple shortcut format: one `action=binding` per line.
use crate::text::first_index;
use crate::text::is_blank;
use crate::text::lemma_first_index;
use crate::text::lemma_occurrences_after_first;
use crate::text::lemma_split_count;
use crate::text::lemma_trimmed;
use crate::text::lines;
use crate::text::lines_of;
use crate::text::occurrences;
use crate::text::split;
use crate::text::split_on;
use crate::text::string_from_chars;
use crate::text::to_chars;
use crate::text::trimmed;
use crate::Binding;
use crate::BindingModel;
use vstd::prelude::*;

verus! {

/// What one line declares: the two pieces around its `=`, untouched, where
/// splitting the line at `=` gives exactly two pieces; nothing otherwise.
pub open spec fn simple_binding(line: Seq<char>) -> Option<BindingModel> {
    let parts = split_on(line, '=');
    if parts.len() == 2 {
        Some((parts[0], parts[1]))
    } else {
        None
    }
}

/// The bindings that `lines` declare, in the order of the lines.
pub open spec fn simple_bindings_of(lines: Seq<Seq<char>>) -> Seq<BindingModel>
    decreases lines.len(),
{
    if lines.len() == 0 {
        Seq::empty()
    } else {
        match simple_binding(lines.last()) {
            Some(b) => simple_bindings_of(lines.drop_last()).push(b),
            None => simple_bindings_of(lines.drop_last()),
        }
    }
}

/// The bindings that a shortcuts file with this content declares.
pub open spec fn simple_bindings(content: Seq<char>) -> Seq<BindingModel> {
    simple_bindings_of(lines_of(content))
}

/// A line declares a binding exactly when it holds one `=`. The fields of
/// the binding are then what stands before that `=` and what stands after
/// it, untouched.
pub proof fn law_binding_iff_one_separator(line: Seq<char>)
    ensures
        simple_binding(line) is Some <==> occurrences(line, '=') == 1,
        occurrences(line, '=') == 1 ==> simple_binding(line) == Some(
            (line.take(first_index(line, '=')), line.skip(first_index(line, '=') + 1)),
        ),
{
    let i = first_index(line, '=');
    lemma_first_index(line, '=');
    lemma_split_count(line, '=');
    lemma_occurrences_after_first(line, '=');
    if occurrences(line, '=') == 1 {
        let rest = line.skip(i + 1);
        lemma_first_index(rest, '=');
        lemma_occurrences_after_first(rest, '=');
        assert(split_on(rest, '=') =~= seq![rest]);
        assert(split_on(line, '=') =~= seq![line.take(i), rest]);
    }
}

/// Each line with exactly one `=` adds one binding, and no other line adds
/// any.
pub proof fn law_bindings_line_by_line(lines: Seq<Seq<char>>, line: Seq<char>)
    ensures
        simple_bindings_of(lines.push(line)) == if occurrences(line, '=') == 1 {
            simple_bindings_of(lines).push(
                (line.take(first_index(line, '=')), line.skip(first_index(line, '=') + 1)),
            )
        } else {
            simple_bindings_of(lines)
        },
{
    law_binding_iff_one_separator(line);
    assert(lines.push(line).drop_last() =~= lines);
}

/// Both fields of a binding hold something after trimming, but for the lines
/// that this leaves out: those whose one `=` has only white space, or
/// nothing, on one of its sides.
pub proof fn law_fields_survive_trimming(line: Seq<char>)
    requires
        occurrences(line, '=') == 1 ==> !is_blank(line.take(first_index(line, '='))) && !is_blank(
            line.skip(first_index(line, '=') + 1),
        ),
    ensures
        simple_binding(line) matches Some(b) ==> trimmed(b.0).len() > 0 && trimmed(b.1).len() > 0,
{
    law_binding_iff_one_separator(line);
    if occurrences(line, '=') == 1 {
        lemma_trimmed(line.take(first_index(line, '=')));
        lemma_trimmed(line.skip(first_index(line, '=') + 1));
    }
}

fn line_binding(line: &[char]) -> (r: Option<Binding>)
    ensures
        r.deep_view() == simple_binding(line@),
{
    let parts = split(line, '=');
    if parts.len() == 2 {
        let action = string_from_chars(parts[0].as_slice());
        let bind = string_from_chars(parts[1].as_slice());
        assert(parts.deep_view()[0] =~= parts@[0]@);
        assert(parts.deep_view()[1] =~= parts@[1]@);
        Some((action, bind))
    } else {
        None
    }
}

/// Reads one line of a shortcuts file.
pub fn parse_keybind_line(line: &str) -> (r: Option<Binding>)
    ensures
        r.deep_view() == simple_binding(line@),
{
    let chars = to_chars(line);
    line_binding(chars.as_slice())
}

/// Reads a shortcuts file: every line that declares a binding gives one, in
/// the order of the lines; the others are passed over.
pub fn parse_keybind_file(content: &str) -> (r: Vec<Binding>)
    ensures
        r.deep_view() == simple_bindings(content@),
{
    let chars = to_chars(content);
    let all = lines(chars.as_slice());
    let mut out: Vec<Binding> = Vec::new();
    let mut k: usize = 0;
    while k < all.len()
        invariant
            k <= all@.len(),
            all.deep_view() == lines_of(content@),
            out.deep_view() == simple_bindings_of(all.deep_view().take(k as int)),
        decreases all@.len() - k,
    {
        let ghost before = out.deep_view();
        proof {
            assert(all.deep_view().take(k + 1).drop_last() =~= all.deep_view().take(k as int));
            assert(all.deep_view().take(k + 1).last() =~= all@[k as int]@);
        }
        match line_binding(all[k].as_slice()) {
            Some(b) => {
                out.push(b);
                assert(out.deep_view() =~~= before.push(b.deep_view()));
            },
            None => {},
        }
        k += 1;
    }
    proof {
        assert(all.deep_view().take(k as int) =~= all.deep_view());
    }
    out
}

} // verus!
