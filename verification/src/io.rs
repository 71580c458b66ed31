//! Answer words and the text layout of values: separated lines and matrices.
use vstd::prelude::*;
use vstd::string::{StringExecFns, to_string_from_display_ensures};
use core::fmt::Display;

verus! {

/// `"Yes"` or `"No"`.
pub fn yes_no(ok: bool) -> (r: &'static str)
    ensures
        r@ == (if ok { "Yes"@ } else { "No"@ }),
{
    if ok {
        "Yes"
    } else {
        "No"
    }
}

/// `"YES"` or `"NO"`.
pub fn yes_no_upper(ok: bool) -> (r: &'static str)
    ensures
        r@ == (if ok { "YES"@ } else { "NO"@ }),
{
    if ok {
        "YES"
    } else {
        "NO"
    }
}

/// `"Possible"` or `"Impossible"`.
pub fn possible_impossible(ok: bool) -> (r: &'static str)
    ensures
        r@ == (if ok { "Possible"@ } else { "Impossible"@ }),
{
    if ok {
        "Possible"
    } else {
        "Impossible"
    }
}

/// The parts one after another with `sep` between neighbours.
pub open spec fn join_with(parts: Seq<Seq<char>>, sep: Seq<char>) -> Seq<char>
    decreases parts.len(),
{
    if parts.len() == 0 {
        seq![]
    } else if parts.len() == 1 {
        parts[0]
    } else {
        join_with(parts.drop_last(), sep) + sep + parts.last()
    }
}

/// The contents of the strings.
pub open spec fn views(parts: Seq<String>) -> Seq<Seq<char>> {
    parts.map_values(|p: String| p@)
}

/// `s` is the displayed forms of `items` joined by `sep`.
pub open spec fn displays_joined<T: Display>(items: Seq<T>, sep: Seq<char>, s: Seq<char>) -> bool {
    exists|parts: Seq<String>|
        #![trigger join_with(views(parts), sep)]
        parts.len() == items.len() && (forall|i: int| 0 <= i < items.len() ==> to_string_from_display_ensures::<T>(
            &items[i],
            #[trigger] parts[i],
        )) && s == join_with(views(parts), sep)
}

/// Appends `c`.
#[verifier::external_body]
fn push_char(s: &mut String, c: char)
    ensures
        final(s)@ == old(s)@.push(c),
{
    s.push(c);
}

/// The displayed forms of the items separated by single spaces.
pub fn line<T: Display>(items: &[T]) -> (r: String)
    ensures
        displays_joined(items@, " "@, r@),
{
    joined(items, " ")
}

/// The displayed forms of the items separated by `sep`.
pub fn joined<T: Display>(items: &[T], sep: &str) -> (r: String)
    ensures
        displays_joined(items@, sep@, r@),
{
    let mut buf = String::new();
    let ghost mut parts: Seq<String> = seq![];
    let mut i: usize = 0;
    while i < items.len()
        invariant
            i <= items@.len(),
            parts.len() == i,
            forall|t: int| 0 <= t < i ==> to_string_from_display_ensures::<T>(&items@[t], #[trigger] parts[t]),
            buf@ == join_with(views(parts), sep@),
        decreases items@.len() - i,
    {
        let part = items[i].to_string();
        let ghost old_parts = parts;
        if i > 0 {
            buf.append(sep);
        }
        buf.append(part.as_str());
        proof {
            parts = parts.push(part);
            assert(views(parts).drop_last() =~= views(old_parts));
            if i == 0 {
                assert(buf@ =~= views(parts)[0]);
            }
        }
        i += 1;
    }
    proof {
        assert(parts.len() == items@.len());
    }
    buf
}

/// The rows, each as a line of space-separated values, separated by newlines.
pub fn matrix<T: Display>(rows: &[Vec<T>]) -> (r: String)
    ensures
        exists|lines: Seq<Seq<char>>|
            #![trigger join_with(lines, "\n"@)]
            lines.len() == rows@.len() && (forall|i: int| 0 <= i < rows@.len() ==> displays_joined(
                #[trigger] rows@[i]@,
                " "@,
                lines[i],
            )) && r@ == join_with(lines, "\n"@),
{
    let mut buf = String::new();
    let ghost mut lines: Seq<Seq<char>> = seq![];
    let mut i: usize = 0;
    while i < rows.len()
        invariant
            i <= rows@.len(),
            lines.len() == i,
            forall|t: int| 0 <= t < i ==> displays_joined(#[trigger] rows@[t]@, " "@, lines[t]),
            buf@ == join_with(lines, "\n"@),
        decreases rows@.len() - i,
    {
        let row = line(rows[i].as_slice());
        let ghost old_lines = lines;
        if i > 0 {
            buf.append("\n");
        }
        buf.append(row.as_str());
        proof {
            lines = lines.push(row@);
            assert(lines.drop_last() =~= old_lines);
            if i == 0 {
                assert(buf@ =~= lines[0]);
            }
        }
        i += 1;
    }
    buf
}

/// The characters as a string.
pub fn chars(cs: &[char]) -> (r: String)
    ensures
        r@ == cs@,
{
    let mut buf = String::new();
    let mut i: usize = 0;
    while i < cs.len()
        invariant
            i <= cs@.len(),
            buf@ == cs@.subrange(0, i as int),
        decreases cs@.len() - i,
    {
        push_char(&mut buf, cs[i]);
        proof {
            assert(cs@.subrange(0, i + 1) =~= cs@.subrange(0, i as int).push(cs@[i as int]));
        }
        i += 1;
    }
    proof {
        assert(cs@.subrange(0, cs@.len() as int) =~= cs@);
    }
    buf
}

} // verus!
