//! The Index Builder's decoding pass: every contact file found in the
//! directory is decoded, malformed ones are skipped, and the records are
//! collected in directory-listing order.  Listing the directory, reading
//! the files and the atomic write of the index file are the caller's I/O.

use vstd::prelude::*;
use crate::contact_codec::decode_spec;
use crate::contact_codec::decode;
use crate::record::{Contact, ContactView};

verus! {

/// What a full build collects from `(path, contents)` pairs: one record per
/// decodable contact file, in the given order; undecodable files are
/// skipped, never fatal.
pub open spec fn build_spec(files: Seq<(String, String)>) -> Seq<ContactView>
    decreases files.len(),
{
    if files.len() == 0 {
        Seq::<ContactView>::empty()
    } else {
        match decode_spec(files[0].1@) {
            Some(p) => seq![
                ContactView { email: p.0, fullname: p.1, path: files[0].0@ },
            ] + build_spec(files.drop_first()),
            None => build_spec(files.drop_first()),
        }
    }
}

/// Decodes every listed contact file into an index, skipping the malformed
/// ones.  `files` holds one `(path, contents)` pair per file, in
/// directory-listing order.
pub fn build_index_records(files: &Vec<(String, String)>) -> (r: Vec<Contact>)
    ensures
        r.deep_view() == build_spec(files@),
{
    let ghost all = files@;
    let mut out: Vec<Contact> = Vec::new();
    let mut i: usize = 0;
    proof {
        assert(all.skip(0) =~= all);
        assert(out.deep_view() + build_spec(all) =~= build_spec(all));
    }
    while i < files.len()
        invariant
            all == files@,
            i <= files.len(),
            build_spec(all) == out.deep_view() + build_spec(all.skip(i as int)),
        decreases files.len() - i,
    {
        let ghost rem = all.skip(i as int);
        proof {
            assert(rem[0] == all[i as int]);
            assert(rem.drop_first() =~= all.skip(i as int + 1));
        }
        let pair = &files[i];
        match decode(pair.1.as_str(), pair.0.as_str()) {
            Ok(c) => {
                proof {
                    assert(decode_spec(rem[0].1@) is Some);
                    let p = decode_spec(rem[0].1@)->Some_0;
                    assert(c@ == (ContactView { email: p.0, fullname: p.1, path: rem[0].0@ }));
                }
                let ghost old_out = out.deep_view();
                out.push(c);
                proof {
                    assert(out.deep_view() =~= old_out.push(
                        build_spec(rem)[0],
                    ));
                    assert(old_out + build_spec(rem) =~= out.deep_view() + build_spec(
                        all.skip(i as int + 1),
                    ));
                }
            },
            Err(_) => {
                proof {
                    assert(decode_spec(rem[0].1@) is None);
                }
            },
        }
        i = i + 1;
    }
    proof {
        assert(all.skip(files.len() as int) =~= Seq::<(String, String)>::empty());
        assert(out.deep_view() + Seq::<ContactView>::empty() =~= out.deep_view());
    }
    out
}

} // verus!
