//! The Query Formatters: pure projections of a matched-record sequence into
//! the three output shapes the CLI surfaces need.

use vstd::prelude::*;
use crate::record::{Contact, ContactView};
use crate::text::push_char;

verus! {

/// One record's line for mutt's query command: `email<TAB>fullname`.
pub open spec fn mutt_line_spec(r: ContactView) -> Seq<char> {
    r.email + seq!['\t'] + r.fullname
}

/// One record's line in `"fullname <email>"` shape; an empty display name
/// yields `"<email>"`.
pub open spec fn display_line_spec(r: ContactView) -> Seq<char> {
    if r.fullname.len() == 0 {
        seq!['<'] + r.email + seq!['>']
    } else {
        r.fullname + seq![' ', '<'] + r.email + seq!['>']
    }
}

/// Renders matched records for mutt's query command: one tab-separated
/// `email<TAB>fullname` line per record, preceded — unless suppressed — by
/// the empty sentinel line mutt's protocol demands.
pub fn to_mutt_lines(records: &Vec<Contact>, suppress_leading_blank: bool) -> (r: Vec<String>)
    ensures
        r.deep_view() == (if suppress_leading_blank {
            Seq::<Seq<char>>::empty()
        } else {
            seq![Seq::<char>::empty()]
        }) + records.deep_view().map_values(|c: ContactView| mutt_line_spec(c)),
{
    let ghost all = records.deep_view();
    let mut out: Vec<String> = Vec::new();
    let ghost head = if suppress_leading_blank {
        Seq::<Seq<char>>::empty()
    } else {
        seq![Seq::<char>::empty()]
    };
    if !suppress_leading_blank {
        out.push(String::new());
    }
    let mut i: usize = 0;
    proof {
        assert(out.deep_view() =~= head + all.take(0).map_values(
            |c: ContactView| mutt_line_spec(c),
        ));
    }
    while i < records.len()
        invariant
            all == records.deep_view(),
            head == (if suppress_leading_blank {
                Seq::<Seq<char>>::empty()
            } else {
                seq![Seq::<char>::empty()]
            }),
            i <= records.len(),
            out.deep_view() == head + all.take(i as int).map_values(
                |c: ContactView| mutt_line_spec(c),
            ),
        decreases records.len() - i,
    {
        let c = &records[i];
        let mut line = String::new();
        line.append(c.email.as_str());
        push_char(&mut line, '\t');
        line.append(c.fullname.as_str());
        proof {
            assert(line@ =~= mutt_line_spec(all[i as int]));
        }
        let ghost old_out = out.deep_view();
        out.push(line);
        proof {
            assert(out.deep_view() =~= old_out.push(mutt_line_spec(all[i as int])));
            assert(out.deep_view() =~= head + all.take(i as int + 1).map_values(
                |c: ContactView| mutt_line_spec(c),
            ));
        }
        i = i + 1;
    }
    proof {
        assert(all.take(records.len() as int) =~= all);
    }
    out
}

/// Renders matched records as bare file paths, one per record, in matcher
/// order.
pub fn to_file_paths(records: &Vec<Contact>) -> (r: Vec<String>)
    ensures
        r.deep_view() == records.deep_view().map_values(|c: ContactView| c.path),
{
    let ghost all = records.deep_view();
    let mut out: Vec<String> = Vec::new();
    let mut i: usize = 0;
    proof {
        assert(out.deep_view() =~= all.take(0).map_values(|c: ContactView| c.path));
    }
    while i < records.len()
        invariant
            all == records.deep_view(),
            i <= records.len(),
            out.deep_view() == all.take(i as int).map_values(|c: ContactView| c.path),
        decreases records.len() - i,
    {
        let ghost old_out = out.deep_view();
        out.push(records[i].path.clone());
        proof {
            assert(out.deep_view() =~= old_out.push(all[i as int].path));
            assert(out.deep_view() =~= all.take(i as int + 1).map_values(
                |c: ContactView| c.path,
            ));
        }
        i = i + 1;
    }
    proof {
        assert(all.take(records.len() as int) =~= all);
    }
    out
}

/// Renders matched records as `"fullname <email>"` lines, in matcher order;
/// an empty display name yields `"<email>"`.
pub fn to_email_display(records: &Vec<Contact>) -> (r: Vec<String>)
    ensures
        r.deep_view() == records.deep_view().map_values(|c: ContactView| display_line_spec(c)),
{
    let ghost all = records.deep_view();
    let mut out: Vec<String> = Vec::new();
    let mut i: usize = 0;
    proof {
        assert(out.deep_view() =~= all.take(0).map_values(
            |c: ContactView| display_line_spec(c),
        ));
    }
    while i < records.len()
        invariant
            all == records.deep_view(),
            i <= records.len(),
            out.deep_view() == all.take(i as int).map_values(
                |c: ContactView| display_line_spec(c),
            ),
        decreases records.len() - i,
    {
        let c = &records[i];
        let mut line = String::new();
        if c.fullname.as_str().unicode_len() > 0 {
            line.append(c.fullname.as_str());
            push_char(&mut line, ' ');
        }
        push_char(&mut line, '<');
        line.append(c.email.as_str());
        push_char(&mut line, '>');
        proof {
            assert(line@ =~= display_line_spec(all[i as int]));
        }
        let ghost old_out = out.deep_view();
        out.push(line);
        proof {
            assert(out.deep_view() =~= old_out.push(display_line_spec(all[i as int])));
            assert(out.deep_view() =~= all.take(i as int + 1).map_values(
                |c: ContactView| display_line_spec(c),
            ));
        }
        i = i + 1;
    }
    proof {
        assert(all.take(records.len() as int) =~= all);
    }
    out
}

} // verus!
