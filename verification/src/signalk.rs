//! Paths of Signal K, and what a mapping onto one comes to.

use vstd::prelude::*;

use crate::strmap::StrMap;
use crate::text::{join, join_with, split, split_on, views};

verus! {

/// The instance that a path names: its third segment, where something follows it.
pub open spec fn path_instance(path: Seq<char>) -> Option<Seq<char>> {
    let parts = split(path, '.');
    if parts.len() >= 4 {
        Some(parts[2])
    } else {
        None
    }
}

/// The node that a path lies under: its first three segments, where something follows
/// them.
pub open spec fn path_node(path: Seq<char>) -> Option<Seq<char>> {
    let parts = split(path, '.');
    if parts.len() >= 4 {
        Some(join(parts.take(3), seq!['.']))
    } else {
        None
    }
}

/// The instance that a path names.
pub fn instance_of(path: &str) -> (r: Option<String>)
    ensures
        match r {
            Some(i) => path_instance(path@) == Some(i@),
            None => path_instance(path@) is None,
        },
{
    let parts = split_on(path, '.');
    assert(views(parts@).len() == parts@.len());
    if parts.len() >= 4 {
        assert(views(parts@)[2] == parts@[2]@);
        Some(parts[2].clone())
    } else {
        None
    }
}

/// The node that a path lies under.
pub fn node_of(path: &str) -> (r: Option<String>)
    ensures
        match r {
            Some(n) => path_node(path@) == Some(n@),
            None => path_node(path@) is None,
        },
{
    let mut parts = split_on(path, '.');
    let ghost all = views(parts@);
    assert(all.len() == parts@.len());
    if parts.len() >= 4 {
        parts.truncate(3);
        assert(views(parts@) =~= all.take(3));
        proof {
            reveal_strlit(".");
            assert("."@ =~= seq!['.']);
        }
        Some(join_with(&parts, "."))
    } else {
        None
    }
}

/// What publishing a field under a path comes to.
pub struct Plan {
    /// The unit under which it is published.
    pub unit: Option<String>,
    /// The conversion, in words.
    pub conversion: String,
    pub warning: Option<String>,
    /// What each label means, where the path holds a truth value.
    pub truth: StrMap<bool>,
}

/// Why a field cannot be published under a path.
pub enum Refusal {
    /// The path holds a truth value, and it is not known what these labels mean.
    Truth { labels: Vec<String>, message: String },
    /// Any other reason.
    Other { message: String },
}

impl Refusal {
    /// The reason in words.
    pub open spec fn words(self) -> Seq<char> {
        match self {
            Refusal::Truth { message, .. } => message@,
            Refusal::Other { message } => message@,
        }
    }

    /// The reason in words.
    pub fn message(&self) -> (r: &String)
        ensures
            r@ == self.words(),
    {
        match self {
            Refusal::Truth { message, .. } => message,
            Refusal::Other { message } => message,
        }
    }
}

/// The instance of a path stands in its node: a path whose node is known names an
/// instance, and the other way round.
pub proof fn law_node_and_instance(path: Seq<char>)
    ensures
        path_node(path) is Some <==> path_instance(path) is Some,
{
}

} // verus!
