//! A filesystem root, as this process found it.
//!
//! The few files that decide what a process may do, read once and held as plain
//! values: what is there, what it says, and what came of trying to open it.

use vstd::prelude::*;
use crate::seqs::{first_of, kept, lemma_take_all, lemma_take_more};
use crate::snapshot::lemma_first_stays;
use crate::text::{
    cut_last, opt_text, owned, put_text, rsplit_once, same, in_order, texts, trim, trimmed,
    no_texts,
};

verus! {

/// How something was opened.
#[derive(Debug, Clone, Copy, PartialEq, Eq, Structural)]
pub enum Mode {
    Read,
    /// For reading and writing.
    Write,
    Append,
}

/// What came of opening something.
#[derive(Debug, Clone, PartialEq, Eq)]
pub enum Opened {
    Yes,
    /// Refused for want of permission.
    Denied,
    /// Anything else, in the system's words.
    Failed(String),
}

/// Something that is there: a directory, or a file with what it says.
#[derive(Debug, Clone)]
pub struct Place {
    /// From the root, without a slash in front: `dev/sda`.
    pub path: String,
    /// What a file says, where it can be read.
    pub text: Option<String>,
}

/// One attempt to open something.
#[derive(Debug, Clone)]
pub struct Attempt {
    pub path: String,
    pub mode: Mode,
    pub outcome: Opened,
}

#[derive(Debug, Clone)]
pub struct Root {
    pub places: Vec<Place>,
    pub attempts: Vec<Attempt>,
    /// Whether the flag that asks for direct I/O is known on this architecture.
    pub direct_io: bool,
}

pub open spec fn stands_at(path: Seq<char>) -> spec_fn(Place) -> bool {
    |p: Place| p.path@ == path
}

pub open spec fn tried(path: Seq<char>, mode: Mode) -> spec_fn(Attempt) -> bool {
    |a: Attempt| a.path@ == path && a.mode == mode
}

/// The directory a path is in, and its last name.
pub open spec fn dir_of(path: Seq<char>) -> Seq<char> {
    match cut_last(path, '/') {
        Some((dir, _)) => dir,
        None => Seq::empty(),
    }
}

pub open spec fn name_of(path: Seq<char>) -> Seq<char> {
    match cut_last(path, '/') {
        Some((_, name)) => name,
        None => path,
    }
}

/// The last name of a path.
pub fn file_name(path: &str) -> (r: String)
    ensures
        r@ == name_of(path@),
{
    match rsplit_once(path, '/') {
        Some((_, name)) => name,
        None => owned(path),
    }
}

fn directory(path: &str) -> (r: String)
    ensures
        r@ == dir_of(path@),
{
    match rsplit_once(path, '/') {
        Some((dir, _)) => dir,
        None => {
            let r = String::new();
            assert(r@ =~= Seq::<char>::empty());
            r
        },
    }
}

pub open spec fn is_in(dir: Seq<char>) -> spec_fn(Place) -> bool {
    |p: Place| dir_of(p.path@) == dir
}

pub open spec fn paths(s: Seq<Place>) -> Seq<Seq<char>> {
    Seq::new(s.len(), |i: int| s[i].path@)
}

/// What an attempt came to.
pub enum Outcome {
    Yes,
    Denied,
    Failed(Seq<char>),
}

pub open spec fn outcome_of(o: Opened) -> Outcome {
    match o {
        Opened::Yes => Outcome::Yes,
        Opened::Denied => Outcome::Denied,
        Opened::Failed(e) => Outcome::Failed(e@),
    }
}

/// What is said of something that nobody tried to open.
pub const NOT_TRIED: &'static str = "not tried";

impl Root {
    pub open spec fn has(self, path: Seq<char>) -> bool {
        first_of(self.places@, stands_at(path)) is Some
    }

    /// What a file says, without the white space around it.
    pub open spec fn says(self, path: Seq<char>) -> Option<Seq<char>> {
        match first_of(self.places@, stands_at(path)) {
            Some(p) => match p.text {
                Some(t) => Some(trimmed(t@)),
                None => None,
            },
            None => None,
        }
    }

    /// What a directory holds, by name.
    pub open spec fn listing(self, dir: Seq<char>) -> Seq<Seq<char>> {
        in_order(paths(kept(self.places@, is_in(dir))))
    }

    pub open spec fn came_to(self, path: Seq<char>, mode: Mode) -> Outcome {
        match first_of(self.attempts@, tried(path, mode)) {
            Some(a) => outcome_of(a.outcome),
            None => Outcome::Failed(NOT_TRIED@),
        }
    }

    fn find(&self, path: &str) -> (r: Option<&Place>)
        ensures
            crate::seqs::pointee(r) == first_of(self.places@, stands_at(path@)),
    {
        let ghost p = stands_at(path@);
        let mut i: usize = 0;
        while i < self.places.len()
            invariant
                i <= self.places.len(),
                p == stands_at(path@),
                first_of(self.places@.take(i as int), p) is None,
            decreases self.places.len() - i,
        {
            proof {
                lemma_take_more(self.places@, i as int);
            }
            if same(self.places[i].path.as_str(), path) {
                proof {
                    lemma_first_stays(self.places@, i + 1, p);
                }
                return Some(&self.places[i]);
            }
            i += 1;
        }
        proof {
            lemma_take_all(self.places@);
        }
        None
    }

    pub fn is_there(&self, path: &str) -> (r: bool)
        ensures
            r == self.has(path@),
    {
        self.find(path).is_some()
    }

    pub fn read_str(&self, path: &str) -> (r: Option<String>)
        ensures
            opt_text(r) == self.says(path@),
    {
        match self.find(path) {
            Some(p) => match &p.text {
                Some(t) => Some(trim(t.as_str())),
                None => None,
            },
            None => None,
        }
    }

    /// The paths a directory holds, by name.
    pub fn list_dir(&self, dir: &str) -> (r: Vec<String>)
        ensures
            texts(r@) == self.listing(dir@),
    {
        let ghost p = is_in(dir@);
        let mut out = no_texts();
        let mut i: usize = 0;
        assert(paths(kept(self.places@.take(0), p)) =~= Seq::<Seq<char>>::empty());
        while i < self.places.len()
            invariant
                i <= self.places.len(),
                p == is_in(dir@),
                texts(out@) == in_order(paths(kept(self.places@.take(i as int), p))),
            decreases self.places.len() - i,
        {
            proof {
                lemma_take_more(self.places@, i as int);
            }
            let d = directory(self.places[i].path.as_str());
            if same(d.as_str(), dir) {
                proof {
                    let k = kept(self.places@.take(i as int), p);
                    let q = paths(k.push(self.places@[i as int]));
                    assert(q.drop_last() =~= paths(k));
                    assert(q.last() == self.places@[i as int].path@);
                }
                put_text(&mut out, self.places[i].path.clone());
            }
            i += 1;
        }
        proof {
            lemma_take_all(self.places@);
        }
        out
    }

    /// What came of opening something.
    pub fn open(&self, path: &str, mode: Mode) -> (r: Opened)
        ensures
            outcome_of(r) == self.came_to(path@, mode),
    {
        let ghost p = tried(path@, mode);
        let mut i: usize = 0;
        while i < self.attempts.len()
            invariant
                i <= self.attempts.len(),
                p == tried(path@, mode),
                first_of(self.attempts@.take(i as int), p) is None,
            decreases self.attempts.len() - i,
        {
            proof {
                lemma_take_more(self.attempts@, i as int);
            }
            let a = &self.attempts[i];
            if a.mode == mode && same(a.path.as_str(), path) {
                proof {
                    lemma_first_stays(self.attempts@, i + 1, p);
                }
                return match &a.outcome {
                    Opened::Yes => Opened::Yes,
                    Opened::Denied => Opened::Denied,
                    Opened::Failed(e) => Opened::Failed(e.clone()),
                };
            }
            i += 1;
        }
        proof {
            lemma_take_all(self.attempts@);
        }
        Opened::Failed(owned(NOT_TRIED))
    }
}

} // verus!
