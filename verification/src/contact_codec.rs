//! The Contact File Codec: a contact file's text is the email address on
//! the first line and an optional display name on the second; everything
//! after that is opaque.  Also extracts a sender from a raw email message.

use vstd::prelude::*;
use crate::errors::MatesError;
use crate::record::Contact;
use crate::text::{
    first_index,
    find_char,
    lemma_first_index,
    lemma_split_seq_concat,
    push_char,
    split_seq,
    split_str,
    trim_spaces,
    trim_str,
};

verus! {

/// The text of a freshly rendered contact file: the email line, then the
/// display-name line if a name was given.
pub open spec fn render_spec(email: Seq<char>, fullname: Option<Seq<char>>) -> Seq<char> {
    email + seq!['\n'] + match fullname {
        Some(f) => f + seq!['\n'],
        None => Seq::<char>::empty(),
    }
}

/// What decoding a contact file yields: the first line as the email address
/// (it must be non-empty) and the second line, if present, as the display
/// name.
pub open spec fn decode_spec(contents: Seq<char>) -> Option<(Seq<char>, Seq<char>)> {
    let lines = split_seq(contents, '\n');
    if lines[0].len() == 0 {
        None
    } else {
        Some(
            (
                lines[0],
                if lines.len() >= 2 {
                    lines[1]
                } else {
                    Seq::<char>::empty()
                },
            ),
        )
    }
}

/// Renders a new contact file's text from an email address and an optional
/// display name.
pub fn render(email: &str, fullname: Option<&str>) -> (r: String)
    ensures
        r@ == render_spec(
            email@,
            match fullname {
                Some(f) => Some(f@),
                None => None,
            },
        ),
{
    let mut out = String::new();
    out.append(email);
    push_char(&mut out, '\n');
    match fullname {
        Some(f) => {
            out.append(f);
            push_char(&mut out, '\n');
            proof {
                assert(out@ =~= render_spec(email@, Some(f@)));
            }
        },
        None => {
            proof {
                assert(out@ =~= render_spec(email@, None));
            }
        },
    }
    out
}

/// Decodes a contact file's text into the record for the file at `path`.
/// Fails with `MalformedContactFile` when the email line is empty.
pub fn decode(contents: &str, path: &str) -> (r: Result<Contact, MatesError>)
    ensures
        match decode_spec(contents@) {
            Some(p) => r matches Ok(c) && c@.email == p.0 && c@.fullname == p.1 && c@.path
                == path@,
            None => r == Err::<Contact, MatesError>(MatesError::MalformedContactFile),
        },
{
    let lines = split_str(contents, '\n');
    proof {
        crate::text::lemma_split_seq_len(contents@, '\n');
    }
    if lines[0].as_str().unicode_len() == 0 {
        return Err(MatesError::MalformedContactFile);
    }
    let email = lines[0].clone();
    let fullname = if lines.len() >= 2 {
        lines[1].clone()
    } else {
        String::new()
    };
    let mut p = String::new();
    p.append(path);
    Ok(Contact { email, fullname, path: p })
}

/// The round trip of the contact-file codec: a rendered file decodes back
/// to the email address and display name it was rendered from, a missing
/// name coming back as the empty string.  Holds for every non-empty email
/// and every name that fit on one line (no newline in either).
pub proof fn lemma_contact_round_trip(email: Seq<char>, fullname: Option<Seq<char>>)
    requires
        email.len() > 0,
        forall|k: int| 0 <= k < email.len() ==> email[k] != '\n',
        fullname matches Some(f) ==> forall|k: int| 0 <= k < f.len() ==> f[k] != '\n',
    ensures
        decode_spec(render_spec(email, fullname)) == Some(
            (
                email,
                match fullname {
                    Some(f) => f,
                    None => Seq::<char>::empty(),
                },
            ),
        ),
{
    match fullname {
        None => {
            let text = render_spec(email, None);
            assert(text =~= email + seq!['\n'] + Seq::<char>::empty());
            lemma_split_seq_concat(email, Seq::<char>::empty(), '\n');
            let lines = split_seq(text, '\n');
            assert(lines == seq![email] + split_seq(Seq::<char>::empty(), '\n'));
            assert(lines =~= seq![email, Seq::<char>::empty()]);
        },
        Some(f) => {
            let text = render_spec(email, Some(f));
            assert(text =~= email + seq!['\n'] + (f + seq!['\n']));
            lemma_split_seq_concat(email, f + seq!['\n'], '\n');
            assert(f + seq!['\n'] =~= f + seq!['\n'] + Seq::<char>::empty());
            lemma_split_seq_concat(f, Seq::<char>::empty(), '\n');
            let lines = split_seq(text, '\n');
            assert(lines =~= seq![email, f, Seq::<char>::empty()]);
        },
    }
}

/// A line that opens a `From:`-style header.
pub open spec fn is_from_line(line: Seq<char>) -> bool {
    line.len() >= 5 && line[0] == 'F' && line[1] == 'r' && line[2] == 'o' && line[3] == 'm'
        && line[4] == ':'
}

/// The payload of the first `From:` line among `lines`, if any.
pub open spec fn first_from_payload(lines: Seq<Seq<char>>) -> Option<Seq<char>>
    decreases lines.len(),
{
    if lines.len() == 0 {
        None
    } else if is_from_line(lines[0]) {
        Some(lines[0].skip(5))
    } else {
        first_from_payload(lines.drop_first())
    }
}

/// How a `From:` payload is read: with an angle-bracketed address, the email
/// is what stands between the first `<` and the first `>` after it and the
/// display name is what stands before the `<`; otherwise the whole trimmed
/// payload is the email.  An empty email fails.
pub open spec fn parse_addr_spec(payload: Seq<char>) -> Option<(Seq<char>, Seq<char>)> {
    let t = trim_spaces(payload);
    match first_index(t, '<') {
        Some(i) => {
            let after = t.skip(i + 1);
            match first_index(after, '>') {
                Some(j) => {
                    let em = after.subrange(0, j);
                    if em.len() > 0 {
                        Some((em, trim_spaces(t.subrange(0, i))))
                    } else {
                        None
                    }
                },
                None => None,
            }
        },
        None => if t.len() > 0 {
            Some((t, Seq::<char>::empty()))
        } else {
            None
        },
    }
}

/// The sender of a raw message: the parse of its first `From:` line.
pub open spec fn sender_spec(raw: Seq<char>) -> Option<(Seq<char>, Seq<char>)> {
    match first_from_payload(split_seq(raw, '\n')) {
        Some(p) => parse_addr_spec(p),
        None => None,
    }
}

/// Reads one `From:` payload into `(email, fullname)`.
fn parse_addr(payload: &str) -> (r: Result<(String, String), MatesError>)
    ensures
        match parse_addr_spec(payload@) {
            Some(p) => r matches Ok(v) && v.0@ == p.0 && v.1@ == p.1,
            None => r == Err::<(String, String), MatesError>(MatesError::NoSenderFound),
        },
{
    let t = trim_str(payload);
    let tn: usize = t.as_str().unicode_len();
    match find_char(t.as_str(), '<') {
        Some(i) => {
            proof {
                lemma_first_index(t@, '<');
            }
            let after = String::from_str(t.as_str().substring_char(i + 1, tn));
            proof {
                assert(after@ =~= t@.skip(i + 1));
            }
            match find_char(after.as_str(), '>') {
                Some(j) => {
                    proof {
                        lemma_first_index(after@, '>');
                    }
                    let em = String::from_str(after.as_str().substring_char(0, j));
                    if em.as_str().unicode_len() > 0 {
                        let name = trim_str(t.as_str().substring_char(0, i));
                        Ok((em, name))
                    } else {
                        Err(MatesError::NoSenderFound)
                    }
                },
                None => Err(MatesError::NoSenderFound),
            }
        },
        None => {
            if tn > 0 {
                Ok((t, String::new()))
            } else {
                Err(MatesError::NoSenderFound)
            }
        },
    }
}

/// Extracts the sender's email address and display name from a raw email
/// message by reading its first `From:` line.  Fails with `NoSenderFound`
/// when no such line exists or when it holds no usable address.
pub fn extract_sender(raw: &str) -> (r: Result<(String, String), MatesError>)
    ensures
        match sender_spec(raw@) {
            Some(p) => r matches Ok(v) && v.0@ == p.0 && v.1@ == p.1,
            None => r == Err::<(String, String), MatesError>(MatesError::NoSenderFound),
        },
{
    let lines = split_str(raw, '\n');
    let ghost all = lines.deep_view();
    let nl = lines.len();
    let mut i: usize = 0;
    proof {
        assert(all.skip(0) =~= all);
    }
    while i < nl
        invariant
            nl == lines.len(),
            all == lines.deep_view(),
            all == split_seq(raw@, '\n'),
            i <= nl,
            first_from_payload(all) == first_from_payload(all.skip(i as int)),
        decreases nl - i,
    {
        let line = &lines[i];
        let ln: usize = line.as_str().unicode_len();
        let from_here = ln >= 5 && line.as_str().get_char(0) == 'F' && line.as_str().get_char(1)
            == 'r' && line.as_str().get_char(2) == 'o' && line.as_str().get_char(3) == 'm'
            && line.as_str().get_char(4) == ':';
        proof {
            assert(all.skip(i as int)[0] == line@);
            assert(from_here == is_from_line(line@));
        }
        if from_here {
            let payload = String::from_str(line.as_str().substring_char(5, ln));
            proof {
                assert(payload@ =~= line@.skip(5));
                assert(first_from_payload(all) == Some(payload@));
            }
            return parse_addr(payload.as_str());
        }
        proof {
            assert(all.skip(i as int).drop_first() =~= all.skip(i as int + 1));
        }
        i = i + 1;
    }
    proof {
        assert(all.skip(nl as int) =~= Seq::<Seq<char>>::empty());
        assert(first_from_payload(all) is None);
    }
    Err(MatesError::NoSenderFound)
}

} // verus!
