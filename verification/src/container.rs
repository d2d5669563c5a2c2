//! Hierarchical names: a path such as `work::email::login` is a chain of
//! boxes that ends in the name of one bundle.

use crate::error::NameError;
use crate::text::{
    chars_of, join, join_strings, lemma_join_split, lemma_split_at_nonempty, slice_of, split,
    split_chars, trim, trim_bounds,
};
use vstd::prelude::*;
use vstd::string::*;

verus! {

/// A resolved path: the boxes in order, then the bundle, and the delimiter
/// they were parted by. It always has a bundle.
#[derive(Debug)]
pub struct Container {
    segments: Vec<String>,
    delimiter: String,
}

/// The name under which `resolve` hands out a `Container`.
pub type ResolvedName = Container;

/// Collects the segments of one path before a `Container` is made of them.
#[derive(Debug, Clone)]
pub struct ContainerBuilder {
    segments: Vec<String>,
    delimiter: String,
}

impl Container {
    #[verifier::type_invariant]
    spec fn has_bundle(self) -> bool {
        self.segments.len() > 0
    }

    /// All segments, boxes first and the bundle last.
    pub closed spec fn segments(&self) -> Seq<Seq<char>> {
        self.segments.deep_view()
    }

    /// The delimiter between segments in the storage key.
    pub closed spec fn delimiter(&self) -> Seq<char> {
        self.delimiter@
    }

    /// The canonical storage key: the segments joined by the delimiter.
    pub open spec fn key_spec(&self) -> Seq<char> {
        join(self.segments(), self.delimiter())
    }

    /// The canonical storage key.
    pub fn key(&self) -> (k: String)
        ensures
            k@ == self.key_spec(),
    {
        join_strings(&self.segments, self.delimiter.as_str())
    }

    /// The name of the bundle: the last segment.
    pub fn bundle_name(&self) -> (name: String)
        ensures
            self.segments().len() > 0,
            name@ == self.segments().last(),
    {
        proof {
            use_type_invariant(self);
        }
        self.segments[self.segments.len() - 1].clone()
    }

    /// The names of the boxes, outermost first: all segments but the last.
    pub fn boxes(&self) -> (names: Vec<String>)
        ensures
            self.segments().len() > 0,
            names.deep_view() == self.segments().drop_last(),
    {
        proof {
            use_type_invariant(self);
        }
        let mut names: Vec<String> = Vec::new();
        let mut i: usize = 0;
        while i + 1 < self.segments.len()
            invariant
                i < self.segments.len(),
                names.deep_view() == self.segments().take(i as int),
            decreases self.segments.len() - i,
        {
            let ghost before = names.deep_view();
            names.push(self.segments[i].clone());
            proof {
                assert(names.deep_view() == before.push(self.segments[i as int]@));
                assert(self.segments().take(i + 1) == self.segments().take(i as int).push(
                    self.segments[i as int]@,
                ));
            }
            i += 1;
        }
        proof {
            assert(self.segments().take(i as int) == self.segments().drop_last());
        }
        names
    }

    /// The pointer of the bundle: every segment, root to leaf.
    pub fn pointer(&self) -> (names: Vec<String>)
        ensures
            names.deep_view() == self.segments(),
    {
        let names = self.segments.clone();
        proof {
            assert(names.deep_view() == self.segments.deep_view());
        }
        names
    }
}

impl ContainerBuilder {
    /// The segments collected so far.
    pub closed spec fn segments(&self) -> Seq<Seq<char>> {
        self.segments.deep_view()
    }

    /// The delimiter the segments were parted by.
    pub closed spec fn delimiter(&self) -> Seq<char> {
        self.delimiter@
    }

    /// A builder that holds nothing yet.
    pub fn new() -> (b: Self)
        ensures
            b.segments().len() == 0,
            b.delimiter().len() == 0,
    {
        let b = ContainerBuilder { segments: Vec::new(), delimiter: String::new() };
        proof {
            assert(b.segments.deep_view().len() == 0);
        }
        b
    }

    /// Parses `name`: trims it and parts it on `delimiter`. A name of which
    /// nothing is left after trimming is refused.
    pub fn create_from_str(self, name: &str, delimiter: &str) -> (r: Result<Self, NameError>)
        ensures
            match r {
                Ok(b) => {
                    &&& trim(name@).len() > 0
                    &&& b.segments() == split(trim(name@), delimiter@)
                    &&& b.delimiter() == delimiter@
                },
                Err(e) => e == NameError::EmptyPath && trim(name@).len() == 0,
            },
    {
        let chars = chars_of(name);
        let (start, end) = trim_bounds(&chars);
        if start == end {
            return Err(NameError::EmptyPath);
        }
        let trimmed = slice_of(&chars, start, end);
        let segments = split_chars(&trimmed, &chars_of(delimiter));
        Ok(ContainerBuilder { segments, delimiter: delimiter.to_string() })
    }

    /// The container of the parsed path, if a path was parsed.
    pub fn build(self) -> (r: Result<Container, NameError>)
        ensures
            match r {
                Ok(c) => {
                    &&& self.segments().len() > 0
                    &&& c.segments() == self.segments()
                    &&& c.delimiter() == self.delimiter()
                },
                Err(e) => e == NameError::EmptyPath && self.segments().len() == 0,
            },
    {
        if self.segments.len() == 0 {
            proof {
                assert(self.segments.deep_view().len() == 0);
            }
            return Err(NameError::EmptyPath);
        }
        proof {
            assert(self.segments.deep_view().len() > 0);
        }
        Ok(Container { segments: self.segments, delimiter: self.delimiter })
    }
}

/// Resolves a path into boxes and a bundle. The path is trimmed, then parted
/// on `delimiter`; it is refused when nothing is left after trimming.
pub fn resolve(path: &str, delimiter: &str) -> (r: Result<ResolvedName, NameError>)
    ensures
        match r {
            Ok(c) => {
                &&& trim(path@).len() > 0
                &&& c.segments() == split(trim(path@), delimiter@)
                &&& c.delimiter() == delimiter@
                &&& c.key_spec() == trim(path@)
            },
            Err(e) => e == NameError::EmptyPath && trim(path@).len() == 0,
        },
{
    match ContainerBuilder::new().create_from_str(path, delimiter) {
        Ok(builder) => {
            proof {
                lemma_split_at_nonempty(trim(path@), delimiter@, 0, 0);
                lemma_join_split(trim(path@), delimiter@);
            }
            builder.build()
        },
        Err(e) => Err(e),
    }
}

/// The key of a resolved path is the path itself, trimmed: resolving and
/// rendering round-trips.
pub proof fn lemma_key_round_trip(path: Seq<char>, delimiter: Seq<char>)
    ensures
        join(split(trim(path), delimiter), delimiter) == trim(path),
{
    lemma_join_split(trim(path), delimiter);
}

} // verus!
