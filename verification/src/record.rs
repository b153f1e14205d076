//! The Contact Record: one contact file's path, email address and display
//! name, as held in memory and in the index.

use vstd::prelude::*;
use crate::text::push_char;

verus! {

/// One contact: the backing file's path, the email address and the display
/// name (possibly empty).
#[derive(Debug)]
pub struct Contact {
    pub email: String,
    pub fullname: String,
    pub path: String,
}

/// The mathematical shadow of a `Contact`: its three fields as character
/// sequences.
pub ghost struct ContactView {
    pub email: Seq<char>,
    pub fullname: Seq<char>,
    pub path: Seq<char>,
}

impl View for Contact {
    type V = ContactView;

    open spec fn view(&self) -> ContactView {
        ContactView { email: self.email@, fullname: self.fullname@, path: self.path@ }
    }
}

impl DeepView for Contact {
    type V = ContactView;

    open spec fn deep_view(&self) -> ContactView {
        self.view()
    }
}

impl ContactView {
    /// A record the index codec can carry faithfully: the email address is
    /// non-empty and no field holds a tab or a newline, the index file's two
    /// separators.
    pub open spec fn wf(self) -> bool {
        &&& self.email.len() > 0
        &&& forall|k: int| 0 <= k < self.email.len() ==> self.email[k] != '\t' && self.email[k]
            != '\n'
        &&& forall|k: int|
            0 <= k < self.fullname.len() ==> self.fullname[k] != '\t' && self.fullname[k] != '\n'
        &&& forall|k: int| 0 <= k < self.path.len() ==> self.path[k] != '\t' && self.path[k] != '\n'
    }
}

impl Contact {
    /// An identical record with freshly owned strings.
    pub fn duplicate(&self) -> (r: Contact)
        ensures
            r@ == self@,
    {
        Contact {
            email: self.email.clone(),
            fullname: self.fullname.clone(),
            path: self.path.clone(),
        }
    }

    /// Builds the record for a brand-new contact file: the path is
    /// `<contact_dir>/<ident>.vcf`, where `ident` is a fresh identifier the
    /// caller drew; a missing display name becomes the empty string.
    pub fn generate(fullname: Option<&str>, email: &str, contact_dir: &str, ident: &str) -> (r:
        Contact)
        ensures
            r@.email == email@,
            r@.fullname == match fullname {
                Some(f) => f@,
                None => Seq::<char>::empty(),
            },
            r@.path == contact_dir@ + seq!['/'] + ident@ + seq!['.', 'v', 'c', 'f'],
    {
        let mut path = String::new();
        path.append(contact_dir);
        push_char(&mut path, '/');
        path.append(ident);
        push_char(&mut path, '.');
        push_char(&mut path, 'v');
        push_char(&mut path, 'c');
        push_char(&mut path, 'f');
        proof {
            assert(path@ =~= contact_dir@ + seq!['/'] + ident@ + seq!['.', 'v', 'c', 'f']);
        }
        let name = match fullname {
            Some(f) => {
                let mut n = String::new();
                n.append(f);
                n
            },
            None => String::new(),
        };
        let mut em = String::new();
        em.append(email);
        Contact { email: em, fullname: name, path }
    }
}

} // verus!
