//! The Index Codec: the index file is line-oriented text, one record per
//! line, the three fields tab-separated:
//! `<email><TAB><fullname><TAB><path><NEWLINE>`.

use vstd::prelude::*;
use crate::errors::MatesError;
use crate::record::{Contact, ContactView};
use crate::text::{
    lemma_split_seq_concat,
    lemma_split_seq_len,
    lemma_split_seq_no_sep,
    push_char,
    split_seq,
    split_str,
};

verus! {

/// One record's line in the index file, trailing newline included.
pub open spec fn encode_record_spec(r: ContactView) -> Seq<char> {
    r.email + seq!['\t'] + r.fullname + seq!['\t'] + r.path + seq!['\n']
}

/// The whole index file's text: every record's line in order.
pub open spec fn encode_index_spec(s: Seq<ContactView>) -> Seq<char>
    decreases s.len(),
{
    if s.len() == 0 {
        Seq::<char>::empty()
    } else {
        encode_record_spec(s[0]) + encode_index_spec(s.drop_first())
    }
}

/// What one index line decodes to: exactly three tab-separated fields with
/// a non-empty email, or nothing.
pub open spec fn decode_line_spec(line: Seq<char>) -> Option<ContactView> {
    let fields = split_seq(line, '\t');
    if fields.len() == 3 && fields[0].len() > 0 {
        Some(ContactView { email: fields[0], fullname: fields[1], path: fields[2] })
    } else {
        None
    }
}

/// What a sequence of index lines decodes to.  A single empty line closes
/// the file (the text ended with its final newline); any line that is not a
/// record makes the whole index undecodable.
pub open spec fn decode_lines_spec(lines: Seq<Seq<char>>) -> Option<Seq<ContactView>>
    decreases lines.len(),
{
    if lines.len() == 0 {
        Some(Seq::<ContactView>::empty())
    } else if lines.len() == 1 && lines[0].len() == 0 {
        Some(Seq::<ContactView>::empty())
    } else {
        match decode_line_spec(lines[0]) {
            None => None,
            Some(r) => match decode_lines_spec(lines.drop_first()) {
                None => None,
                Some(rest) => Some(seq![r] + rest),
            },
        }
    }
}

/// What the index file's text decodes to.
pub open spec fn decode_index_spec(text: Seq<char>) -> Option<Seq<ContactView>> {
    decode_lines_spec(split_seq(text, '\n'))
}

/// Encoding distributes over appending one record at the back.
pub proof fn lemma_encode_index_push(s: Seq<ContactView>, r: ContactView)
    ensures
        encode_index_spec(s.push(r)) == encode_index_spec(s) + encode_record_spec(r),
    decreases s.len(),
{
    if s.len() == 0 {
        assert(s.push(r).drop_first() =~= Seq::<ContactView>::empty());
        assert(s.push(r)[0] == r);
        assert(encode_index_spec(s.push(r)) == encode_record_spec(r) + encode_index_spec(
            Seq::<ContactView>::empty(),
        ));
        assert(encode_index_spec(s.push(r)) =~= encode_index_spec(s) + encode_record_spec(r));
    } else {
        assert(s.push(r).drop_first() =~= s.drop_first().push(r));
        lemma_encode_index_push(s.drop_first(), r);
        assert(encode_index_spec(s.push(r)) =~= encode_index_spec(s) + encode_record_spec(r));
    }
}

/// The round trip of the index codec: an encoded index decodes back to a
/// sequence equal, field for field and in order, to the original.  Holds
/// for every sequence of well-formed records.
pub proof fn lemma_index_round_trip(s: Seq<ContactView>)
    requires
        forall|k: int| 0 <= k < s.len() ==> (#[trigger] s[k]).wf(),
    ensures
        decode_index_spec(encode_index_spec(s)) == Some(s),
    decreases s.len(),
{
    if s.len() == 0 {
        assert(encode_index_spec(s) =~= Seq::<char>::empty());
        assert(split_seq(Seq::<char>::empty(), '\n') == seq![Seq::<char>::empty()]);
        assert(s =~= Seq::<ContactView>::empty());
    } else {
        let r = s[0];
        let rest = s.drop_first();
        assert(r.wf());
        let line0 = r.email + seq!['\t'] + r.fullname + seq!['\t'] + r.path;
        let text = encode_index_spec(s);
        assert(text =~= line0 + seq!['\n'] + encode_index_spec(rest));
        assert(forall|k: int| 0 <= k < line0.len() ==> line0[k] != '\n');
        lemma_split_seq_concat(line0, encode_index_spec(rest), '\n');
        let tail = split_seq(encode_index_spec(rest), '\n');
        lemma_split_seq_len(encode_index_spec(rest), '\n');
        let lines = split_seq(text, '\n');
        assert(lines == seq![line0] + tail);
        assert(lines.len() >= 2);
        assert(lines[0] == line0);
        assert(line0.len() > 0);
        // The line splits back into the three fields.
        assert(line0 =~= r.email + seq!['\t'] + (r.fullname + seq!['\t'] + r.path));
        lemma_split_seq_concat(r.email, r.fullname + seq!['\t'] + r.path, '\t');
        assert(r.fullname + seq!['\t'] + r.path =~= r.fullname + seq!['\t'] + r.path
            + Seq::<char>::empty() + Seq::<char>::empty());
        lemma_split_seq_concat(r.fullname, r.path, '\t');
        lemma_split_seq_no_sep(r.path, '\t');
        assert(split_seq(line0, '\t') =~= seq![r.email, r.fullname, r.path]);
        assert(decode_line_spec(line0) == Some(
            ContactView { email: r.email, fullname: r.fullname, path: r.path },
        ));
        assert(ContactView { email: r.email, fullname: r.fullname, path: r.path } == r);
        // The tail decodes to the remaining records.
        assert(forall|k: int| 0 <= k < rest.len() ==> (#[trigger] rest[k]).wf());
        lemma_index_round_trip(rest);
        assert(lines.drop_first() =~= tail);
        assert(decode_lines_spec(lines) == Some(seq![r] + rest));
        assert(seq![r] + rest =~= s);
    }
}

/// Appending one encoded record to an encoded index and decoding the whole
/// yields the original records with the new one at the back.
pub proof fn lemma_append_round_trip(s: Seq<ContactView>, r: ContactView)
    requires
        forall|k: int| 0 <= k < s.len() ==> (#[trigger] s[k]).wf(),
        r.wf(),
    ensures
        decode_index_spec(encode_index_spec(s) + encode_record_spec(r)) == Some(s.push(r)),
{
    lemma_encode_index_push(s, r);
    assert(forall|k: int| 0 <= k < s.push(r).len() ==> (#[trigger] s.push(r)[k]).wf());
    lemma_index_round_trip(s.push(r));
}

/// Encodes one record as its index line, used both by the full rebuild and
/// by the single-record append.
pub fn encode_record_line(r: &Contact) -> (t: String)
    ensures
        t@ == encode_record_spec(r@),
{
    let mut out = String::new();
    out.append(r.email.as_str());
    push_char(&mut out, '\t');
    out.append(r.fullname.as_str());
    push_char(&mut out, '\t');
    out.append(r.path.as_str());
    push_char(&mut out, '\n');
    proof {
        assert(out@ =~= encode_record_spec(r@));
    }
    out
}

/// Encodes a whole index as the text of the index file.
pub fn encode_index(records: &Vec<Contact>) -> (t: String)
    ensures
        t@ == encode_index_spec(records.deep_view()),
{
    let ghost all = records.deep_view();
    let mut out = String::new();
    let mut i: usize = 0;
    proof {
        assert(all.take(0) =~= Seq::<ContactView>::empty());
    }
    while i < records.len()
        invariant
            all == records.deep_view(),
            i <= records.len(),
            out@ == encode_index_spec(all.take(i as int)),
        decreases records.len() - i,
    {
        let line = encode_record_line(&records[i]);
        out.append(line.as_str());
        proof {
            assert(all.take(i as int + 1) =~= all.take(i as int).push(all[i as int]));
            lemma_encode_index_push(all.take(i as int), all[i as int]);
        }
        i = i + 1;
    }
    proof {
        assert(all.take(records.len() as int) =~= all);
    }
    out
}

/// Decodes the index file's text.  Fails with `IndexCorrupt` when any line
/// is not a well-formed record line.
pub fn decode_index(text: &str) -> (r: Result<Vec<Contact>, MatesError>)
    ensures
        match decode_index_spec(text@) {
            Some(s) => r matches Ok(v) && v.deep_view() == s,
            None => r == Err::<Vec<Contact>, MatesError>(MatesError::IndexCorrupt),
        },
{
    let lines = split_str(text, '\n');
    let ghost all = lines.deep_view();
    let nl = lines.len();
    let mut acc: Vec<Contact> = Vec::new();
    let mut i: usize = 0;
    proof {
        assert(all.skip(0) =~= all);
        assert(acc.deep_view() =~= Seq::<ContactView>::empty());
        if decode_lines_spec(all) is Some {
            assert(acc.deep_view() + decode_lines_spec(all)->Some_0 =~= decode_lines_spec(
                all,
            )->Some_0);
        }
    }
    while i < nl
        invariant
            nl == lines.len(),
            all == lines.deep_view(),
            all == split_seq(text@, '\n'),
            i <= nl,
            decode_lines_spec(all) is Some <==> decode_lines_spec(all.skip(i as int)) is Some,
            decode_lines_spec(all.skip(i as int)) matches Some(rest) ==> decode_lines_spec(all)
                == Some(acc.deep_view() + rest),
        decreases nl - i,
    {
        let ghost rem = all.skip(i as int);
        proof {
            assert(rem.len() == nl - i);
            assert(rem[0] == lines.deep_view()[i as int]);
            assert(rem.drop_first() =~= all.skip(i as int + 1));
        }
        let line = &lines[i];
        if i == nl - 1 && line.as_str().unicode_len() == 0 {
            proof {
                assert(rem.len() == 1 && rem[0].len() == 0);
                assert(decode_lines_spec(rem) == Some(Seq::<ContactView>::empty()));
                assert(acc.deep_view() + Seq::<ContactView>::empty() =~= acc.deep_view());
            }
            return Ok(acc);
        }
        let fields = split_str(line.as_str(), '\t');
        proof {
            assert(fields.deep_view() == split_seq(rem[0], '\t'));
            assert(!(rem.len() == 1 && rem[0].len() == 0)) by {
                if rem[0].len() == 0 {
                    lemma_split_seq_len(rem[0], '\t');
                }
            }
        }
        if fields.len() != 3 || fields[0].as_str().unicode_len() == 0 {
            proof {
                assert(rem[0].len() == 0 ==> split_seq(rem[0], '\t') =~= seq![
                    Seq::<char>::empty(),
                ]);
                assert(decode_line_spec(rem[0]) is None);
                assert(decode_lines_spec(rem) is None);
            }
            return Err(MatesError::IndexCorrupt);
        }
        let email = fields[0].clone();
        let fullname = fields[1].clone();
        let path = fields[2].clone();
        let c = Contact { email, fullname, path };
        proof {
            assert(decode_line_spec(rem[0]) == Some(c@));
        }
        let ghost old_acc = acc.deep_view();
        acc.push(c);
        proof {
            assert(acc.deep_view() =~= old_acc.push(c@));
            let next = all.skip(i as int + 1);
            assert(decode_lines_spec(rem) is Some <==> decode_lines_spec(next) is Some);
            if decode_lines_spec(next) is Some {
                let rest2 = decode_lines_spec(next)->Some_0;
                assert(decode_lines_spec(rem) == Some(seq![c@] + rest2));
                assert(old_acc + (seq![c@] + rest2) =~= acc.deep_view() + rest2);
            }
        }
        i = i + 1;
    }
    proof {
        assert(all.skip(nl as int) =~= Seq::<Seq<char>>::empty());
        assert(decode_lines_spec(all.skip(nl as int)) == Some(Seq::<ContactView>::empty()));
        assert(acc.deep_view() + Seq::<ContactView>::empty() =~= acc.deep_view());
    }
    Ok(acc)
}

} // verus!
