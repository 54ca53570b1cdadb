//! The window-manager configuration format: among many other directives,
//! lines of the form `bind = MODIFIERS, KEY, ACTION...` declare a key chord.
use crate::text::append;
use crate::text::each_trimmed;
use crate::text::find;
use crate::text::first_index;
use crate::text::join;
use crate::text::joined;
use crate::text::lemma_first_index;
use crate::text::lemma_trimmed;
use crate::text::lemma_trimmed_keeps;
use crate::text::lines;
use crate::text::lines_of;
use crate::text::remove_char;
use crate::text::replace_char;
use crate::text::replaced;
use crate::text::split;
use crate::text::split_on;
use crate::text::string_from_chars;
use crate::text::to_chars;
use crate::text::trim;
use crate::text::trim_each;
use crate::text::trimmed;
use crate::text::without;
use crate::Binding;
use crate::BindingModel;
use vstd::prelude::*;
use vstd::slice::slice_subrange;

verus! {

/// The text `bind =`.
pub open spec fn bind_directive() -> Seq<char> {
    seq!['b', 'i', 'n', 'd', ' ', '=']
}

/// The text `bindm =`.
pub open spec fn bindm_directive() -> Seq<char> {
    seq!['b', 'i', 'n', 'd', 'm', ' ', '=']
}

/// Whether a trimmed line begins with one of the two directives that declare
/// a key chord.
pub open spec fn declares_keybind(t: Seq<char>) -> bool {
    bind_directive().is_prefix_of(t) || bindm_directive().is_prefix_of(t)
}

/// What follows the first `=` of `t`.
pub open spec fn right_hand_side(t: Seq<char>) -> Seq<char> {
    t.skip(first_index(t, '=') + 1)
}

/// The comma-separated segments of the right-hand side of `t`, each trimmed.
pub open spec fn segments(t: Seq<char>) -> Seq<Seq<char>> {
    each_trimmed(split_on(right_hand_side(t), ','))
}

/// The chord of a modifier expression and a key: the modifiers without any
/// `$` and with `+` for each space, then `+`, then the key.
pub open spec fn chord(modifiers: Seq<char>, key: Seq<char>) -> Seq<char> {
    replaced(without(modifiers, '$'), ' ', '+') + seq!['+'] + key
}

/// What one line of the configuration declares. Blank lines, comments and
/// other directives declare nothing, and neither does a chord directive with
/// fewer than three segments. Otherwise the first segment holds the
/// modifiers, the second the key, and the rest, commas included, the action.
pub open spec fn hyprland_binding(line: Seq<char>) -> Option<BindingModel> {
    let t = trimmed(line);
    if t.len() == 0 || t[0] == '#' {
        None
    } else if !declares_keybind(t) {
        None
    } else if segments(t).len() < 3 {
        None
    } else {
        Some((joined(segments(t).skip(2), ','), chord(segments(t)[0], segments(t)[1])))
    }
}

/// The bindings that `lines` declare, in the order of the lines.
pub open spec fn hyprland_bindings_of(lines: Seq<Seq<char>>) -> Seq<BindingModel>
    decreases lines.len(),
{
    if lines.len() == 0 {
        Seq::empty()
    } else {
        match hyprland_binding(lines.last()) {
            Some(b) => hyprland_bindings_of(lines.drop_last()).push(b),
            None => hyprland_bindings_of(lines.drop_last()),
        }
    }
}

/// The bindings that a configuration with this content declares.
pub open spec fn hyprland_bindings(content: Seq<char>) -> Seq<BindingModel> {
    hyprland_bindings_of(lines_of(content))
}

/// Bindings come line by line: those of one run of lines, then those of the
/// next.
pub proof fn lemma_bindings_of_concat(a: Seq<Seq<char>>, b: Seq<Seq<char>>)
    ensures
        hyprland_bindings_of(a + b) == hyprland_bindings_of(a) + hyprland_bindings_of(b),
    decreases b.len(),
{
    if b.len() == 0 {
        assert(a + b =~= a);
        assert(hyprland_bindings_of(a) + hyprland_bindings_of(b) =~= hyprland_bindings_of(a));
    } else {
        assert((a + b).drop_last() =~= a + b.drop_last());
        assert((a + b).last() == b.last());
        lemma_bindings_of_concat(a, b.drop_last());
        match hyprland_binding(b.last()) {
            Some(x) => {
                assert(hyprland_bindings_of(a + b) =~= hyprland_bindings_of(a)
                    + hyprland_bindings_of(b));
            },
            None => {},
        }
    }
}

/// A line that, once trimmed, begins with neither `bind =` nor `bindm =`
/// declares nothing, and the bindings of a configuration are the same with
/// the line as without it.
pub proof fn law_other_lines_ignored(
    before: Seq<Seq<char>>,
    line: Seq<char>,
    after: Seq<Seq<char>>,
)
    requires
        !declares_keybind(trimmed(line)),
    ensures
        hyprland_binding(line) is None,
        hyprland_bindings_of(before.push(line) + after) == hyprland_bindings_of(before + after),
{
    assert(before.push(line).drop_last() =~= before);
    lemma_bindings_of_concat(before.push(line), after);
    lemma_bindings_of_concat(before, after);
}

/// A chord directive with at least three segments declares a binding. Its
/// chord is the first segment without any `$` and with `+` for each space,
/// then `+`, then the second segment; its action is made of the remaining
/// segments with `,` between them. Every segment is taken trimmed.
pub proof fn law_keybind_shape(line: Seq<char>)
    requires
        declares_keybind(trimmed(line)),
        split_on(right_hand_side(trimmed(line)), ',').len() >= 3,
    ensures
        ({
            let seg = each_trimmed(split_on(right_hand_side(trimmed(line)), ','));
            hyprland_binding(line) == Some(
                (
                    joined(seg.skip(2), ','),
                    replaced(without(seg[0], '$'), ' ', '+') + seq!['+'] + seg[1],
                ),
            )
        }),
{
    let t = trimmed(line);
    if bind_directive().is_prefix_of(t) {
        assert(t.subrange(0, 6)[0] == 'b');
    } else {
        assert(t.subrange(0, 7)[0] == 'b');
    }
}

/// Both fields of a binding hold something after trimming, but for the lines
/// that this leaves out: chord directives with exactly three segments of
/// which the third is blank.
pub proof fn law_fields_survive_trimming(line: Seq<char>)
    requires
        hyprland_binding(line) is Some ==> !(segments(trimmed(line)).len() == 3 && segments(
            trimmed(line),
        )[2].len() == 0),
    ensures
        hyprland_binding(line) matches Some(b) ==> trimmed(b.0).len() > 0 && trimmed(b.1).len() > 0,
{
    if hyprland_binding(line) is Some {
        let seg = segments(trimmed(line));
        let action = joined(seg.skip(2), ',');
        let modifiers = replaced(without(seg[0], '$'), ' ', '+');
        let bind = chord(seg[0], seg[1]);
        assert(bind[modifiers.len() as int] == '+');
        lemma_trimmed_keeps(bind, modifiers.len() as int);
        let tail = seg.skip(2);
        if tail.len() == 1 {
            let raw = split_on(right_hand_side(trimmed(line)), ',');
            assert(tail[0] == trimmed(raw[2]));
            lemma_trimmed(raw[2]);
            lemma_trimmed_keeps(action, 0);
        } else {
            let head = joined(tail.drop_last(), ',');
            assert(action[head.len() as int] == ',');
            lemma_trimmed_keeps(action, head.len() as int);
        }
    }
}

fn begins_with_directive(t: &[char]) -> (r: bool)
    ensures
        r == declares_keybind(t@),
{
    if t.len() < 6 {
        return false;
    }
    if !(t[0] == 'b' && t[1] == 'i' && t[2] == 'n' && t[3] == 'd') {
        assert(!declares_keybind(t@)) by {
            if bind_directive().is_prefix_of(t@) {
                let p = t@.subrange(0, 6);
                assert(p[0] == 'b' && p[1] == 'i' && p[2] == 'n' && p[3] == 'd');
            }
            if bindm_directive().is_prefix_of(t@) {
                let p = t@.subrange(0, 7);
                assert(p[0] == 'b' && p[1] == 'i' && p[2] == 'n' && p[3] == 'd');
            }
        }
        return false;
    }
    let plain = t[4] == ' ' && t[5] == '=';
    let mouse = t.len() >= 7 && t[4] == 'm' && t[5] == ' ' && t[6] == '=';
    proof {
        if plain {
            assert(t@.subrange(0, 6) =~= bind_directive());
        } else if bind_directive().is_prefix_of(t@) {
            let p = t@.subrange(0, 6);
            assert(p[4] == ' ' && p[5] == '=');
        }
        if mouse {
            assert(t@.subrange(0, 7) =~= bindm_directive());
        } else if bindm_directive().is_prefix_of(t@) {
            let p = t@.subrange(0, 7);
            assert(p[4] == 'm' && p[5] == ' ' && p[6] == '=');
        }
    }
    plain || mouse
}

fn line_binding(line: &[char]) -> (r: Option<Binding>)
    ensures
        r.deep_view() == hyprland_binding(line@),
{
    let t = trim(line);
    if t.len() == 0 || t[0] == '#' {
        return None;
    }
    if !begins_with_directive(t) {
        return None;
    }
    let eq = find(t, '=');
    proof {
        lemma_first_index(t@, '=');
        if bind_directive().is_prefix_of(t@) {
            assert(t@.subrange(0, 6)[5] == '=');
        } else {
            assert(t@.subrange(0, 7)[6] == '=');
        }
    }
    let raw = split(slice_subrange(t, eq + 1, t.len()), ',');
    let segs = trim_each(&raw);
    if segs.len() < 3 {
        return None;
    }
    let rest = slice_subrange(segs.as_slice(), 2, segs.len());
    let action = join(rest, ',');
    assert(rest.deep_view() =~~= segs.deep_view().skip(2));
    let stripped = remove_char(segs[0].as_slice(), '$');
    let mut bind = replace_char(stripped.as_slice(), ' ', '+');
    bind.push('+');
    append(&mut bind, segs[1].as_slice());
    proof {
        assert(segs.deep_view()[0] =~= segs@[0]@);
        assert(segs.deep_view()[1] =~= segs@[1]@);
        assert(bind@ =~= chord(segs@[0]@, segs@[1]@));
    }
    Some((string_from_chars(action.as_slice()), string_from_chars(bind.as_slice())))
}

/// Reads one line of the window-manager configuration.
pub fn parse_hyprland_line(line: &str) -> (r: Option<Binding>)
    ensures
        r.deep_view() == hyprland_binding(line@),
{
    let chars = to_chars(line);
    line_binding(chars.as_slice())
}

/// Reads the window-manager configuration: every line that declares a key
/// chord gives one binding, in the order of the lines; all other lines are
/// passed over.
pub fn parse_hyprland_keybinds(content: &str) -> (r: Vec<Binding>)
    ensures
        r.deep_view() == hyprland_bindings(content@),
{
    let chars = to_chars(content);
    let all = lines(chars.as_slice());
    let mut out: Vec<Binding> = Vec::new();
    let mut k: usize = 0;
    while k < all.len()
        invariant
            k <= all@.len(),
            all.deep_view() == lines_of(content@),
            out.deep_view() == hyprland_bindings_of(all.deep_view().take(k as int)),
        decreases all@.len() - k,
    {
        let ghost before = out.deep_view();
        proof {
            assert(all.deep_view().take(k + 1).drop_last() =~= all.deep_view().take(k as int));
            assert(all.deep_view().take(k + 1).last() =~= all@[k as int]@);
        }
        match line_binding(all[k].as_slice()) {
            Some(b) => {
                out.push(b);
                assert(out.deep_view() =~~= before.push(b.deep_view()));
            },
            None => {},
        }
        k += 1;
    }
    proof {
        assert(all.deep_view().take(k as int) =~= all.deep_view());
    }
    out
}

} // verus!
