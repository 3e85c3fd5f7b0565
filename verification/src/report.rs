//! Human-readable reports: rendering every validation error exhaustively,
//! one offender per line, plus the small pure helpers of the command line
//! (option record and size parsing).

use vstd::prelude::*;
use vstd::string::{StringExecFns, StrSliceExecFns};

use crate::ast::{AttrKind, Identifier};
use crate::flou::{FlouError, LogicError};
use crate::grid::ResolutionError;
use crate::pos::IndexPos;
use crate::svg::{i64_text, spec_i64_text};

verus! {

/// The command-line options: input and output files and the two sizes.
#[derive(Debug, PartialEq, Eq)]
pub struct Opt {
    /// Input file; `-` reads from the standard input.
    pub input: String,
    /// Output file; the standard output when absent.
    pub output: Option<String>,
    /// Width and height of nodes in the grid.
    pub node_size: Option<(i64, i64)>,
    /// Width and height of the grid gaps.
    pub grid_gap_size: Option<(i64, i64)>,
}

/// A position as `(x, y)` text.
pub open spec fn spec_pos_text(p: IndexPos) -> Seq<char> {
    "("@ + spec_i64_text(p.x as int) + ", "@ + spec_i64_text(p.y as int) + ")"@
}

/// Renders a position as `(x, y)`.
pub fn pos_text(p: IndexPos) -> (r: String)
    ensures
        r@ == spec_pos_text(p),
{
    let mut out = String::new();
    out.append("(");
    out.append(i64_text(p.x).as_str());
    out.append(", ");
    out.append(i64_text(p.y).as_str());
    out.append(")");
    proof {
        assert(out@ =~= spec_pos_text(p));
    }
    out
}

/// A string in double quotes.
pub open spec fn spec_quote(s: Seq<char>) -> Seq<char> {
    "\""@ + s + "\""@
}

/// Wraps a string in double quotes.
pub fn quote(item: &str) -> (r: String)
    ensures
        r@ == spec_quote(item@),
{
    let mut out = String::new();
    out.append("\"");
    out.append(item);
    out.append("\"");
    proof {
        assert(out@ =~= spec_quote(item@));
    }
    out
}

/// The join of `prefix + item + suffix` over a list, separated by the
/// delimiter.
pub open spec fn spec_join(
    items: Seq<Seq<char>>,
    delimiter: Seq<char>,
    prefix: Seq<char>,
    suffix: Seq<char>,
) -> Seq<char>
    decreases items.len(),
{
    if items.len() == 0 {
        Seq::empty()
    } else if items.len() == 1 {
        prefix + items.last() + suffix
    } else {
        spec_join(items.drop_last(), delimiter, prefix, suffix) + delimiter + prefix
            + items.last() + suffix
    }
}

/// Joins decorated items with a delimiter.
pub fn print_sequence(items: &Vec<String>, delimiter: &str, prefix: &str, suffix: &str) -> (r:
    String)
    ensures
        r@ == spec_join(items.deep_view(), delimiter@, prefix@, suffix@),
{
    let ghost iv = items.deep_view();
    let mut out = String::new();
    let mut k: usize = 0;
    while k < items.len()
        invariant
            0 <= k <= iv.len(),
            iv == items.deep_view(),
            iv.len() == items@.len(),
            forall|j: int| 0 <= j < iv.len() ==> iv[j] == #[trigger] items@[j]@,
            out@ == spec_join(iv.take(k as int), delimiter@, prefix@, suffix@),
        decreases iv.len() - k,
    {
        proof {
            assert(iv.take(k as int + 1).drop_last() =~= iv.take(k as int));
            assert(iv.take(k as int + 1).last() == iv[k as int]);
        }
        if k > 0 {
            out.append(delimiter);
        }
        out.append(prefix);
        out.append(items[k].as_str());
        out.append(suffix);
        proof {
            assert(out@ =~= spec_join(iv.take(k as int + 1), delimiter@, prefix@, suffix@));
        }
        k += 1;
    }
    proof {
        assert(iv.take(iv.len() as int) =~= iv);
    }
    out
}

/// The join of `prefix + key + mid + value` over pairs.
pub open spec fn spec_join_pairs(
    entries: Seq<(Seq<char>, Seq<char>)>,
    delimiter: Seq<char>,
    prefix: Seq<char>,
    mid: Seq<char>,
) -> Seq<char>
    decreases entries.len(),
{
    if entries.len() == 0 {
        Seq::empty()
    } else if entries.len() == 1 {
        prefix + entries.last().0 + mid + entries.last().1
    } else {
        spec_join_pairs(entries.drop_last(), delimiter, prefix, mid) + delimiter + prefix
            + entries.last().0 + mid + entries.last().1
    }
}

/// Joins decorated key-value pairs with a delimiter.
pub fn print_map(entries: &Vec<(String, String)>, delimiter: &str, prefix: &str, mid: &str) -> (r:
    String)
    ensures
        r@ == spec_join_pairs(entries.deep_view(), delimiter@, prefix@, mid@),
{
    let ghost ev = entries.deep_view();
    let mut out = String::new();
    let mut k: usize = 0;
    while k < entries.len()
        invariant
            0 <= k <= ev.len(),
            ev == entries.deep_view(),
            ev.len() == entries@.len(),
            forall|j: int|
                0 <= j < ev.len() ==> ev[j] == (entries@[j].0@, #[trigger] entries@[j].1@),
            out@ == spec_join_pairs(ev.take(k as int), delimiter@, prefix@, mid@),
        decreases ev.len() - k,
    {
        proof {
            assert(ev.take(k as int + 1).drop_last() =~= ev.take(k as int));
            assert(ev.take(k as int + 1).last() == ev[k as int]);
        }
        if k > 0 {
            out.append(delimiter);
        }
        out.append(prefix);
        out.append(entries[k].0.as_str());
        out.append(mid);
        out.append(entries[k].1.as_str());
        proof {
            assert(out@ =~= spec_join_pairs(ev.take(k as int + 1), delimiter@, prefix@, mid@));
        }
        k += 1;
    }
    proof {
        assert(ev.take(ev.len() as int) =~= ev);
    }
    out
}

/// A destination failure as one line of text.
pub open spec fn spec_resolution_error_text(e: crate::grid::ResolutionErrorV) -> Seq<char> {
    match e {
        crate::grid::ResolutionErrorV::InvalidDirection(d) => "No destination found in direction: "@
            + d.spec_name(),
        crate::grid::ResolutionErrorV::UnknownLabel(l) => "No destination with label: "@
            + spec_quote(l),
    }
}

/// Renders a destination failure.
pub fn print_resolution_error(e: &ResolutionError) -> (r: String)
    ensures
        r@ == spec_resolution_error_text(e.deep_view()),
{
    match e {
        ResolutionError::InvalidDirection(dir) => {
            let mut out = String::new();
            out.append("No destination found in direction: ");
            out.append(dir.name());
            proof {
                assert(out@ =~= spec_resolution_error_text(e.deep_view()));
            }
            out
        },
        ResolutionError::UnknownLabel(label) => {
            let mut out = String::new();
            out.append("No destination with label: ");
            let q = quote(label.as_str());
            out.append(q.as_str());
            proof {
                assert(out@ =~= spec_resolution_error_text(e.deep_view()));
            }
            out
        },
    }
}

/// Renders the duplicated kinds of one offender as quoted keys.
fn kinds_line(kinds: &Vec<AttrKind>) -> (r: String) {
    let mut items: Vec<String> = Vec::new();
    let mut k: usize = 0;
    while k < kinds.len()
        invariant
            true,
        decreases kinds@.len() - k,
    {
        items.push(kinds[k].name().to_owned());
        k += 1;
    }
    print_sequence(&items, ", ", "\"", "\"")
}

/// Renders the indexed duplicate reports of one owner's connections.
fn indexed_kinds_lines(list: &Vec<(usize, Vec<AttrKind>)>, label: &str) -> (r: String) {
    let mut entries: Vec<(String, String)> = Vec::new();
    let mut k: usize = 0;
    while k < list.len()
        invariant
            true,
        decreases list@.len() - k,
    {
        let idx = crate::svg::usize_text(list[k].0);
        entries.push((idx, kinds_line(&list[k].1)));
        k += 1;
    }
    let mut prefix = String::new();
    prefix.append("    - ");
    prefix.append(label);
    print_map(&entries, "\n", prefix.as_str(), ": ")
}

/// The heading line each error class is reported under.
pub open spec fn spec_logic_error_heading(e: LogicError) -> Seq<char> {
    match e {
        LogicError::DuplicateLabels(_) => "Some labels are used more than once:\n\n"@,
        LogicError::DuplicateDefinitions(_) => "Some identifiers have multiple definitions:\n\n"@,
        LogicError::DuplicateNodeAttributesInDefinitions(_) =>
            "Some node definitions have duplicate attributes:\n\n"@,
        LogicError::DuplicateNodeAttributesInGrid(_) =>
            "Some nodes declared in the grid have duplicate attributes:\n\n"@,
        LogicError::DuplicateConnectionAttributesInDefinitions(_) =>
            "Some connections in node definitions have duplicate attributes:\n\n"@,
        LogicError::DuplicateConnectionAttributesInGrid(_) =>
            "Some connections declared in the grid have duplicate attributes:\n\n"@,
        LogicError::InvalidDestination(_) =>
            "Could not resolve destination for some node's connections:\n\n"@,
    }
}

/// Renders a validation error exhaustively: a heading, then one line per
/// offender, grouped by key.
pub fn logic_error_to_string(e: &LogicError) -> (r: String)
    ensures
        r@.len() > 0,
        r@.len() >= spec_logic_error_heading(*e).len(),
        r@.subrange(0, spec_logic_error_heading(*e).len() as int) == spec_logic_error_heading(
            *e,
        ),
{
    let mut out = String::new();
    proof {
        reveal_strlit("Some labels are used more than once:\n\n");
        reveal_strlit("Some identifiers have multiple definitions:\n\n");
        reveal_strlit("Some node definitions have duplicate attributes:\n\n");
        reveal_strlit("Some nodes declared in the grid have duplicate attributes:\n\n");
        reveal_strlit("Some connections in node definitions have duplicate attributes:\n\n");
        reveal_strlit("Some connections declared in the grid have duplicate attributes:\n\n");
        reveal_strlit("Could not resolve destination for some node's connections:\n\n");
    }
    match e {
        LogicError::DuplicateLabels(labels) => {
            out.append("Some labels are used more than once:\n\n");
            let mut entries: Vec<(String, String)> = Vec::new();
            let mut k: usize = 0;
            while k < labels.len()
                invariant
                    true,
                decreases labels@.len() - k,
            {
                let mut positions: Vec<String> = Vec::new();
                let mut t: usize = 0;
                while t < labels[k].1.len()
                    invariant
                        0 <= k < labels@.len(),
                    decreases labels@[k as int].1@.len() - t,
                {
                    positions.push(pos_text(labels[k].1[t]));
                    t += 1;
                }
                entries.push(
                    (labels[k].0.as_str().to_owned(), print_sequence(&positions, ", ", "", "")),
                );
                k += 1;
            }
            let body = print_map(&entries, "\n", "  - \"", "\" at: ");
            out.append(body.as_str());
            proof {
                assert(out@.subrange(0, spec_logic_error_heading(*e).len() as int)
                    =~= spec_logic_error_heading(*e));
            }
        },
        LogicError::DuplicateDefinitions(ids) => {
            out.append("Some identifiers have multiple definitions:\n\n");
            let mut items: Vec<String> = Vec::new();
            let mut k: usize = 0;
            while k < ids.len()
                invariant
                    true,
                decreases ids@.len() - k,
            {
                items.push(ids[k].as_str().to_owned());
                k += 1;
            }
            let body = print_sequence(&items, "\n", "  - \"", "\"");
            out.append(body.as_str());
            proof {
                assert(out@.subrange(0, spec_logic_error_heading(*e).len() as int)
                    =~= spec_logic_error_heading(*e));
            }
        },
        LogicError::DuplicateNodeAttributesInDefinitions(attrs) => {
            out.append("Some node definitions have duplicate attributes:\n\n");
            let mut entries: Vec<(String, String)> = Vec::new();
            let mut k: usize = 0;
            while k < attrs.len()
                invariant
                    true,
                decreases attrs@.len() - k,
            {
                entries.push((attrs[k].0.as_str().to_owned(), kinds_line(&attrs[k].1)));
                k += 1;
            }
            let body = print_map(&entries, "\n", "  - \"", "\" has duplicate(s): ");
            out.append(body.as_str());
            proof {
                assert(out@.subrange(0, spec_logic_error_heading(*e).len() as int)
                    =~= spec_logic_error_heading(*e));
            }
        },
        LogicError::DuplicateNodeAttributesInGrid(attrs) => {
            out.append("Some nodes declared in the grid have duplicate attributes:\n\n");
            let mut entries: Vec<(String, String)> = Vec::new();
            let mut k: usize = 0;
            while k < attrs.len()
                invariant
                    true,
                decreases attrs@.len() - k,
            {
                entries.push((pos_text(attrs[k].0), kinds_line(&attrs[k].1)));
                k += 1;
            }
            let body = print_map(&entries, "\n", "  - Node at ", " has duplicate(s): ");
            out.append(body.as_str());
            proof {
                assert(out@.subrange(0, spec_logic_error_heading(*e).len() as int)
                    =~= spec_logic_error_heading(*e));
            }
        },
        LogicError::DuplicateConnectionAttributesInDefinitions(attrs) => {
            out.append("Some connections in node definitions have duplicate attributes:\n\n");
            let mut entries: Vec<(String, String)> = Vec::new();
            let mut k: usize = 0;
            while k < attrs.len()
                invariant
                    true,
                decreases attrs@.len() - k,
            {
                entries.push(
                    (
                        attrs[k].0.as_str().to_owned(),
                        indexed_kinds_lines(&attrs[k].1, "At index "),
                    ),
                );
                k += 1;
            }
            let body = print_map(&entries, "\n", "  - At definition \"", "\":\n");
            out.append(body.as_str());
            proof {
                assert(out@.subrange(0, spec_logic_error_heading(*e).len() as int)
                    =~= spec_logic_error_heading(*e));
            }
        },
        LogicError::DuplicateConnectionAttributesInGrid(attrs) => {
            out.append(
                "Some connections declared in the grid have duplicate attributes:\n\n",
            );
            let mut entries: Vec<(String, String)> = Vec::new();
            let mut k: usize = 0;
            while k < attrs.len()
                invariant
                    true,
                decreases attrs@.len() - k,
            {
                entries.push(
                    (
                        pos_text(attrs[k].0),
                        indexed_kinds_lines(&attrs[k].1, "For connection at index "),
                    ),
                );
                k += 1;
            }
            let body = print_map(&entries, "\n", "  - At grid position ", ":\n");
            out.append(body.as_str());
            proof {
                assert(out@.subrange(0, spec_logic_error_heading(*e).len() as int)
                    =~= spec_logic_error_heading(*e));
            }
        },
        LogicError::InvalidDestination(errors) => {
            out.append("Could not resolve destination for some node's connections:\n\n");
            let mut entries: Vec<(String, String)> = Vec::new();
            let mut k: usize = 0;
            while k < errors.len()
                invariant
                    true,
                decreases errors@.len() - k,
            {
                let mut inner: Vec<(String, String)> = Vec::new();
                let mut t: usize = 0;
                while t < errors[k].1.len()
                    invariant
                        0 <= k < errors@.len(),
                    decreases errors@[k as int].1@.len() - t,
                {
                    let idx = crate::svg::usize_text(errors[k].1[t].0);
                    inner.push((idx, print_resolution_error(&errors[k].1[t].1)));
                    t += 1;
                }
                entries.push(
                    (
                        pos_text(errors[k].0),
                        print_map(&inner, "\n", "    - For connection at index ", ": "),
                    ),
                );
                k += 1;
            }
            let body = print_map(&entries, "\n", "  - For node at grid position ", ":\n");
            out.append(body.as_str());
            proof {
                assert(out@.subrange(0, spec_logic_error_heading(*e).len() as int)
                    =~= spec_logic_error_heading(*e));
            }
        },
    }
    out
}

/// Renders either kind of pipeline failure.
pub fn flou_error_to_string(e: &FlouError) -> (r: String)
    ensures
        r@.len() > 0,
{
    match e {
        FlouError::Parse(p) => {
            let mut out = String::new();
            out.append("Error parsing Flou:\n\nsyntax error at character ");
            proof {
                reveal_strlit("Error parsing Flou:\n\nsyntax error at character ");
            }
            let idx = crate::svg::usize_text(p.at);
            out.append(idx.as_str());
            out
        },
        FlouError::Logic(l) => {
            let mut out = String::new();
            out.append("Error in Flou logic:\n");
            proof {
                reveal_strlit("Error in Flou logic:\n");
            }
            let body = logic_error_to_string(l);
            out.append(body.as_str());
            out
        },
    }
}

/// Parses a `x,y` size argument: two comma-separated machine integers, both
/// nonnegative.
pub fn parse_size(src: &str) -> (r: Result<(i64, i64), &'static str>)
    ensures
        r matches Ok(v) ==> 0 <= v.0 <= 2147483647 && 0 <= v.1 <= 2147483647,
{
    let n = src.unicode_len();
    let mut comma: Option<usize> = None;
    let mut commas: usize = 0;
    let mut i: usize = 0;
    while i < n
        invariant
            0 <= i <= n,
            n == src@.len(),
            commas <= i,
            comma matches Some(c) ==> c < n,
        decreases n - i,
    {
        if src.get_char(i) == ',' {
            if comma.is_none() {
                comma = Some(i);
            }
            commas = commas + 1;
        }
        i += 1;
    }
    let c = match comma {
        Some(c) => c,
        None => {
            return Err("Size should have format: \"x,y\"");
        },
    };
    if commas != 1 {
        return Err("Size should have format: \"x,y\"");
    }
    let x = match parse_size_field(src, 0, c) {
        Some(v) => v,
        None => {
            return Err("Could not parse X coordinate");
        },
    };
    let y = match parse_size_field(src, c + 1, n) {
        Some(v) => v,
        None => {
            return Err("Could not parse Y coordinate");
        },
    };
    if x < 0 || y < 0 {
        return Err("X and Y cannot be negative.");
    }
    Ok((x, y))
}

/// Parses one side of a size argument as a machine integer with an optional
/// sign.
fn parse_size_field(s: &str, from: usize, to: usize) -> (r: Option<i64>)
    requires
        from <= to <= s@.len(),
    ensures
        r matches Some(v) ==> -2147483648 <= v <= 2147483647,
{
    let mut i = from;
    let mut negative = false;
    if i < to {
        let c = s.get_char(i);
        if c == '+' {
            i += 1;
        } else if c == '-' {
            negative = true;
            i += 1;
        }
    }
    if i >= to {
        return None;
    }
    let mut value: i64 = 0;
    while i < to
        invariant
            from <= i <= to,
            to <= s@.len(),
            0 <= value <= 2147483648,
        decreases to - i,
    {
        let c = s.get_char(i);
        let d: i64 = if c == '0' {
            0
        } else if c == '1' {
            1
        } else if c == '2' {
            2
        } else if c == '3' {
            3
        } else if c == '4' {
            4
        } else if c == '5' {
            5
        } else if c == '6' {
            6
        } else if c == '7' {
            7
        } else if c == '8' {
            8
        } else if c == '9' {
            9
        } else {
            return None;
        };
        if value > 214748364 {
            return None;
        }
        value = value * 10 + d;
        if value > 2147483648 {
            return None;
        }
        i += 1;
    }
    if negative {
        Some(-value)
    } else {
        if value > 2147483647 {
            return None;
        }
        Some(value)
    }
}

} // verus!
