//! The data model: one parsed identity and the ordered collection of them.

use vstd::prelude::*;
use vstd::string::StringExecFns;
use crate::model::AuthorV;
use crate::model::spec_render_author;

verus! {

/// The ghost form of an optional email field.
pub open spec fn email_view(e: Option<String>) -> Option<Seq<char>> {
    match e {
        Some(s) => Some(s@),
        None => None,
    }
}

/// One identity: a display name and an optional contact address.
#[derive(Debug, PartialEq, Eq, Clone)]
pub struct Author {
    name: String,
    email: Option<String>,
}

impl View for Author {
    type V = AuthorV;

    closed spec fn view(&self) -> AuthorV {
        AuthorV { name: self.name@, email: email_view(self.email) }
    }
}

impl Author {
    pub fn new(name: String, email: Option<String>) -> (a: Author)
        ensures
            a@ == (AuthorV { name: name@, email: email_view(email) }),
    {
        Author { name, email }
    }

    pub fn name(&self) -> (r: &str)
        ensures
            r@ == self@.name,
    {
        self.name.as_str()
    }

    pub fn email(&self) -> (r: Option<&String>)
        ensures
            match self@.email {
                Some(ev) => r matches Some(e) && e@ == ev,
                None => r is None,
            },
    {
        self.email.as_ref()
    }

    /// The canonical textual form: the name alone, or `name <email>` when
    /// an email is present.
    pub fn render(&self) -> (r: String)
        ensures
            r@ == spec_render_author(self@),
    {
        match &self.email {
            None => self.name.clone(),
            Some(e) => {
                let mut out = self.name.clone();
                out.append(" <");
                out.append(e.as_str());
                out.append(">");
                out
            },
        }
    }
}

/// The ordered, non-empty result of a successful list parse.
#[derive(Debug, PartialEq, Eq, Clone)]
pub struct Authors {
    authors: Vec<Author>,
}

impl View for Authors {
    type V = Seq<AuthorV>;

    closed spec fn view(&self) -> Seq<AuthorV> {
        self.authors@.map_values(|a: Author| a@)
    }
}

impl Authors {
    /// An empty accumulator, optionally pre-sized from a lower bound on the
    /// number of elements still to come.
    pub(crate) fn initial(capacity: Option<usize>) -> (r: Authors)
        ensures
            r@ == Seq::<AuthorV>::empty(),
    {
        let authors: Vec<Author> = match capacity {
            Some(c) => Vec::with_capacity(c),
            None => Vec::new(),
        };
        proof {
            assert(authors@.map_values(|a: Author| a@) =~= Seq::<AuthorV>::empty());
        }
        Authors { authors }
    }

    /// Appends one more parsed author, preserving insertion order.
    pub(crate) fn accumulate(&mut self, a: Author)
        ensures
            final(self)@ == old(self)@.push(a@),
    {
        proof {
            assert(self.authors@.push(a).map_values(|x: Author| x@) =~= self.authors@.map_values(
                |x: Author| x@,
            ).push(a@));
        }
        self.authors.push(a);
    }

    pub fn len(&self) -> (n: usize)
        ensures
            n == self@.len(),
    {
        self.authors.len()
    }

    pub fn is_empty(&self) -> (b: bool)
        ensures
            b == (self@.len() == 0),
    {
        self.authors.len() == 0
    }

    /// Read access to the element at `i`, in input order.
    pub fn get(&self, i: usize) -> (a: &Author)
        requires
            i < self@.len(),
        ensures
            a@ == self@[i as int],
    {
        &self.authors[i]
    }

    /// Replaces the element at `i`; the collection supports element-wise
    /// mutation but no insertion or removal.
    pub fn set(&mut self, i: usize, a: Author)
        requires
            i < old(self)@.len(),
        ensures
            final(self)@ == old(self)@.update(i as int, a@),
    {
        proof {
            assert(self.authors@.update(i as int, a).map_values(|x: Author| x@)
                =~= self.authors@.map_values(|x: Author| x@).update(i as int, a@));
        }
        self.authors.set(i, a);
    }
}

} // verus!
