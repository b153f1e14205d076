//! The Query Matcher: a record matches a fragment when the fragment,
//! compared under ASCII case folding, occurs as a substring of the record's
//! email address or of its display name; results keep the index order.

use vstd::prelude::*;
use crate::errors::MatesError;
use crate::record::{Contact, ContactView};
use crate::text::{
    contains_fold,
    fold_seq,
    is_substring,
    lemma_empty_is_substring,
    lemma_fold_upper_lower,
    lower_seq,
    upper_seq,
};

verus! {

/// The matching predicate, over an already folded fragment.
pub open spec fn rec_matches(r: ContactView, folded_fragment: Seq<char>) -> bool {
    is_substring(fold_seq(r.email), folded_fragment) || is_substring(
        fold_seq(r.fullname),
        folded_fragment,
    )
}

/// What a query returns: the matching records of the index, in index order.
pub open spec fn search_spec(s: Seq<ContactView>, fragment: Seq<char>) -> Seq<ContactView> {
    s.filter(|r: ContactView| rec_matches(r, fold_seq(fragment)))
}

/// Returns the records of `index` that match `fragment`, in index order.
/// Never fails; an empty fragment matches every record.
pub fn search(index: &Vec<Contact>, fragment: &str) -> (r: Vec<Contact>)
    ensures
        r.deep_view() == search_spec(index.deep_view(), fragment@),
{
    let ghost all = index.deep_view();
    let ghost pred = |r: ContactView| rec_matches(r, fold_seq(fragment@));
    let mut out: Vec<Contact> = Vec::new();
    let mut i: usize = 0;
    proof {
        assert(all.take(0) =~= Seq::<ContactView>::empty());
        assert(Seq::<ContactView>::empty().filter(pred) =~= Seq::<ContactView>::empty()) by {
            reveal(Seq::filter);
        }
        assert(out.deep_view() =~= Seq::<ContactView>::empty());
    }
    while i < index.len()
        invariant
            all == index.deep_view(),
            pred == (|r: ContactView| rec_matches(r, fold_seq(fragment@))),
            i <= index.len(),
            out.deep_view() == all.take(i as int).filter(pred),
        decreases index.len() - i,
    {
        let c = &index[i];
        let hit = contains_fold(c.email.as_str(), fragment) || contains_fold(
            c.fullname.as_str(),
            fragment,
        );
        proof {
            assert(all[i as int] == c@);
            assert(hit == pred(c@));
            assert(all.take(i as int + 1) =~= all.take(i as int).push(all[i as int]));
            all.take(i as int).lemma_filter_push(all[i as int], pred);
        }
        if hit {
            let ghost old_out = out.deep_view();
            let d = c.duplicate();
            out.push(d);
            proof {
                assert(out.deep_view() =~= old_out.push(c@));
            }
        }
        i = i + 1;
    }
    proof {
        assert(all.take(index.len() as int) =~= all);
    }
    out
}

/// The empty fragment matches every record: searching for it returns the
/// whole index in its original order.
pub proof fn lemma_search_empty_fragment(s: Seq<ContactView>)
    ensures
        search_spec(s, Seq::<char>::empty()) == s,
{
    let pred = |r: ContactView| rec_matches(r, fold_seq(Seq::<char>::empty()));
    assert(fold_seq(Seq::<char>::empty()) =~= Seq::<char>::empty());
    assert forall|r: ContactView| #[trigger] pred(r) by {
        lemma_empty_is_substring(fold_seq(r.email));
    }
    lemma_filter_all_true(s, pred);
}

/// Filtering with a predicate that holds everywhere keeps everything.
proof fn lemma_filter_all_true<A>(s: Seq<A>, pred: spec_fn(A) -> bool)
    requires
        forall|x: A| #[trigger] pred(x),
    ensures
        s.filter(pred) == s,
    decreases s.len(),
{
    reveal(Seq::filter);
    if s.len() == 0 {
    } else {
        lemma_filter_all_true(s.drop_last(), pred);
        assert(s.filter(pred) == s.drop_last().filter(pred).push(s.last()));
        assert(s.drop_last().push(s.last()) =~= s);
    }
}

/// Two fragments that fold to the same sequence return the same results.
pub proof fn lemma_search_same_fold(s: Seq<ContactView>, f1: Seq<char>, f2: Seq<char>)
    requires
        fold_seq(f1) == fold_seq(f2),
    ensures
        search_spec(s, f1) == search_spec(s, f2),
{
}

/// Case insensitivity: the upper-cased and the lower-cased form of a
/// fragment, and the fragment itself, all return the same results.
pub proof fn lemma_search_case_insensitive(s: Seq<ContactView>, fragment: Seq<char>)
    ensures
        search_spec(s, upper_seq(fragment)) == search_spec(s, fragment),
        search_spec(s, lower_seq(fragment)) == search_spec(s, fragment),
        search_spec(s, upper_seq(fragment)) == search_spec(s, lower_seq(fragment)),
{
    lemma_fold_upper_lower(fragment);
    lemma_search_same_fold(s, upper_seq(fragment), fragment);
    lemma_search_same_fold(s, lower_seq(fragment), fragment);
}

/// Folding commutes with taking a subrange.
proof fn lemma_fold_subrange(s: Seq<char>, i: int, j: int)
    requires
        0 <= i <= j <= s.len(),
    ensures
        fold_seq(s.subrange(i, j)) == fold_seq(s).subrange(i, j),
{
    assert(fold_seq(s.subrange(i, j)) =~= fold_seq(s).subrange(i, j));
}

/// Substring-match totality, email side: a fragment cut out of a record's
/// email address always finds that record.
pub proof fn lemma_search_includes_email_substring(s: Seq<ContactView>, k: int, i: int, j: int)
    requires
        0 <= k < s.len(),
        0 <= i <= j <= s[k].email.len(),
    ensures
        search_spec(s, s[k].email.subrange(i, j)).contains(s[k]),
{
    let frag = s[k].email.subrange(i, j);
    lemma_fold_subrange(s[k].email, i, j);
    let fe = fold_seq(s[k].email);
    let ff = fold_seq(frag);
    assert(fe.subrange(i, i + ff.len()) == ff);
    assert(is_substring(fe, ff));
    let pred = |r: ContactView| rec_matches(r, ff);
    s.lemma_filter_contains(pred, k);
}

/// Substring-match totality, display-name side: a fragment cut out of a
/// record's display name always finds that record.
pub proof fn lemma_search_includes_fullname_substring(s: Seq<ContactView>, k: int, i: int, j: int)
    requires
        0 <= k < s.len(),
        0 <= i <= j <= s[k].fullname.len(),
    ensures
        search_spec(s, s[k].fullname.subrange(i, j)).contains(s[k]),
{
    let frag = s[k].fullname.subrange(i, j);
    lemma_fold_subrange(s[k].fullname, i, j);
    let fe = fold_seq(s[k].fullname);
    let ff = fold_seq(frag);
    assert(fe.subrange(i, i + ff.len()) == ff);
    assert(is_substring(fe, ff));
    let pred = |r: ContactView| rec_matches(r, ff);
    s.lemma_filter_contains(pred, k);
}

/// Resolves an edit target: an input that names an existing file (the
/// caller checked) is returned unchanged; anything else is run as a query,
/// whose sole match's path is the target.  More than one match is
/// `AmbiguousQuery`, none is `NoMatch`.
pub fn resolve_edit_target(input: &str, input_is_file: bool, index: &Vec<Contact>) -> (r: Result<
    String,
    MatesError,
>)
    ensures
        ({
            let found = search_spec(index.deep_view(), input@);
            &&& input_is_file ==> (r matches Ok(p) && p@ == input@)
            &&& !input_is_file && found.len() == 0 ==> r == Err::<String, MatesError>(
                MatesError::NoMatch,
            )
            &&& !input_is_file && found.len() == 1 ==> (r matches Ok(p) && p@ == found[0].path)
            &&& !input_is_file && found.len() > 1 ==> r == Err::<String, MatesError>(
                MatesError::AmbiguousQuery,
            )
        }),
{
    if input_is_file {
        return Ok(String::from_str(input));
    }
    let found = search(index, input);
    if found.len() == 0 {
        Err(MatesError::NoMatch)
    } else if found.len() == 1 {
        proof {
            assert(found.deep_view()[0] == found[0]@);
        }
        Ok(found[0].path.clone())
    } else {
        Err(MatesError::AmbiguousQuery)
    }
}

} // verus!
