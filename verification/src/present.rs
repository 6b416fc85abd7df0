//! Pure assembly of the field-summary rendering: given the plain
//! values probed out of a resolved document, builds the exact summary
//! lines. Which document keys are probed, and terminal coloring, are
//! display concerns that stay with the caller.

use vstd::prelude::*;
use vstd::string::StringExecFns;

verus! {

/// The plain values a field summary displays; an absent field is
/// `None` and displays as a dash.
pub struct DocSummary {
    pub kind: Option<String>,
    pub handle: Option<String>,
    pub name: Option<String>,
    pub country: Option<String>,
    pub status: Vec<String>,
    pub roles: Vec<String>,
}

pub open spec fn opt_view(o: Option<String>) -> Option<Seq<char>> {
    match o {
        Some(s) => Some(s@),
        None => None,
    }
}

/// An absent field displays as a dash.
pub open spec fn field_text(f: Option<Seq<char>>) -> Seq<char> {
    match f {
        Some(s) => s,
        None => "-"@,
    }
}

pub fn field_or_dash(f: &Option<String>) -> (r: String)
    ensures
        r@ == field_text(opt_view(*f)),
{
    match f {
        Some(s) => s.clone(),
        None => String::from_str("-"),
    }
}

/// The parts joined by the separator, in order, with no separator
/// around the edges.
pub open spec fn join_spec(parts: Seq<Seq<char>>, sep: Seq<char>) -> Seq<char>
    decreases parts.len(),
{
    if parts.len() == 0 {
        Seq::empty()
    } else if parts.len() == 1 {
        parts[0]
    } else {
        join_spec(parts.drop_last(), sep) + sep + parts.last()
    }
}

/// Joins strings with a separator.
pub fn join_with(parts: &Vec<String>, sep: &str) -> (r: String)
    ensures
        r@ == join_spec(parts@.map_values(|s: String| s@), sep@),
{
    let ghost ps = parts@.map_values(|s: String| s@);
    let mut out = String::new();
    let mut i: usize = 0;
    while i < parts.len()
        invariant
            0 <= i <= parts@.len(),
            ps == parts@.map_values(|s: String| s@),
            out@ == join_spec(ps.take(i as int), sep@),
        decreases parts@.len() - i,
    {
        proof {
            assert(ps.take(i + 1).drop_last() =~= ps.take(i as int));
            assert(ps.take(i + 1).last() == ps[i as int]);
        }
        if i > 0 {
            out.append(sep);
        }
        out.append(parts[i].as_str());
        proof {
            if i == 0 {
                assert(out@ =~= ps[0]);
                assert(ps.take(1)[0] == ps[0]);
            }
        }
        i = i + 1;
    }
    proof {
        assert(ps.take(ps.len() as int) =~= ps);
    }
    out
}

/// How a status list displays: a dash when empty, else the entries
/// joined by commas.
pub open spec fn status_text_spec(status: Seq<Seq<char>>) -> Seq<char> {
    if status.len() == 0 {
        "-"@
    } else {
        join_spec(status, ","@)
    }
}

pub fn status_text(status: &Vec<String>) -> (r: String)
    ensures
        r@ == status_text_spec(status@.map_values(|s: String| s@)),
{
    if status.len() == 0 {
        String::from_str("-")
    } else {
        join_with(status, ",")
    }
}

fn labeled(label: &str, value: &str) -> (r: String)
    ensures
        r@ == label@ + value@,
{
    let mut l = String::from_str(label);
    l.append(value);
    l
}

/// Builds the field-summary lines for a resolved document's probed
/// values: one labeled line per field, the joined status list, and a
/// roles line only when any role is present.
pub fn summary_lines(s: &DocSummary) -> (r: Vec<String>)
    ensures
        r@.len() == (if s.roles@.len() == 0 {
            5int
        } else {
            6int
        }),
        r@[0]@ == "Type: "@ + field_text(opt_view(s.kind)),
        r@[1]@ == "Handle: "@ + field_text(opt_view(s.handle)),
        r@[2]@ == "Name: "@ + field_text(opt_view(s.name)),
        r@[3]@ == "Country: "@ + field_text(opt_view(s.country)),
        r@[4]@ == "Status: "@ + status_text_spec(s.status@.map_values(|x: String| x@)),
        s.roles@.len() > 0 ==> r@[5]@ == "Roles: "@ + join_spec(
            s.roles@.map_values(|x: String| x@),
            ", "@,
        ),
{
    let mut out: Vec<String> = Vec::new();
    out.push(labeled("Type: ", field_or_dash(&s.kind).as_str()));
    out.push(labeled("Handle: ", field_or_dash(&s.handle).as_str()));
    out.push(labeled("Name: ", field_or_dash(&s.name).as_str()));
    out.push(labeled("Country: ", field_or_dash(&s.country).as_str()));
    out.push(labeled("Status: ", status_text(&s.status).as_str()));
    if s.roles.len() > 0 {
        out.push(labeled("Roles: ", join_with(&s.roles, ", ").as_str()));
    }
    out
}

} // verus!
