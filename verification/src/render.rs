//! The output line the processing capability writes for one matched input
//! line: the capture groups joined by single tabs, with a group that did not
//! participate in the match written "[NONE]" — or the whole match itself
//! when the pattern has no capture groups.

use vstd::prelude::*;
use vstd::string::StringExecFns;

verus! {

/// The text standing for one capture group: the group's own text, or
/// "[NONE]" where the group did not participate in the match.
pub open spec fn group_text(g: Option<Seq<char>>) -> Seq<char> {
    match g {
        Some(t) => t,
        None => "[NONE]"@,
    }
}

/// The capture groups' texts joined by single tabs, in order.
pub open spec fn joined(groups: Seq<Option<Seq<char>>>) -> Seq<char>
    decreases groups.len(),
{
    if groups.len() == 0 {
        Seq::empty()
    } else if groups.len() == 1 {
        group_text(groups[0])
    } else {
        joined(groups.drop_last()) + "\t"@ + group_text(groups.last())
    }
}

/// The output line for one match: the groups joined by tabs when the
/// pattern has capture groups, else the whole match.
pub open spec fn rendered(whole: Seq<char>, groups: Seq<Option<Seq<char>>>) -> Seq<char> {
    if groups.len() == 0 {
        whole
    } else {
        joined(groups)
    }
}

/// The views of a vector of optional capture texts.
pub open spec fn views_of(groups: Seq<Option<String>>) -> Seq<Option<Seq<char>>> {
    groups.map(
        |i: int, g: Option<String>|
            match g {
                Some(s) => Some(s@),
                None => None::<Seq<char>>,
            },
    )
}

/// Build the output line for a match whose whole text is `whole` and whose
/// capture groups are `groups`, each `None` where the group did not
/// participate in the match.
pub fn render_match(whole: &str, groups: &Vec<Option<String>>) -> (r: String)
    ensures
        r@ == rendered(whole@, views_of(groups@)),
{
    let ghost vs = views_of(groups@);
    if groups.len() == 0 {
        return whole.to_owned();
    }
    let mut out = String::new();
    let mut i: usize = 0;
    while i < groups.len()
        invariant
            i <= groups@.len(),
            0 < groups@.len(),
            vs == views_of(groups@),
            out@ == joined(vs.take(i as int)),
        decreases groups@.len() - i,
    {
        if i > 0 {
            out.append("\t");
        }
        match &groups[i] {
            Some(s) => out.append(s.as_str()),
            None => out.append("[NONE]"),
        }
        proof {
            let j = i + 1;
            assert(vs.take(j as int).drop_last() =~= vs.take(i as int));
            assert(vs.take(j as int).last() == vs[i as int]);
            if i == 0 {
                assert(out@ =~= group_text(vs[0]));
            } else {
                assert(out@ =~= joined(vs.take(i as int)) + "\t"@ + group_text(vs[i as int]));
            }
        }
        i = i + 1;
    }
    proof {
        assert(vs.take(groups@.len() as int) =~= vs);
    }
    out
}

} // verus!
