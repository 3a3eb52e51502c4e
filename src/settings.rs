//! The policy's configuration: a rejection mode and a set of names.
use vstd::prelude::*;

use crate::names::{dedup_names, views};

verus! {

/// Which combinations of volume mount names a container may not have.
#[derive(Clone, Copy, Debug, PartialEq, Eq, Structural)]
pub enum Reject {
    /// None of the configured names may be mounted.
    AnyIn,
    /// Only the configured names may be mounted.
    AnyNotIn,
    /// The configured names may not all be mounted together.
    AllAreUsed,
    /// Every configured name must be mounted.
    NotAllAreUsed,
}

impl Default for Reject {
    fn default() -> (r: Reject)
        ensures
            r == Reject::AnyIn,
    {
        Reject::AnyIn
    }
}

/// The name of each mode in a configuration document.
pub open spec fn mode_name(mode: Reject) -> Seq<char> {
    match mode {
        Reject::AnyIn => "anyIn"@,
        Reject::AnyNotIn => "anyNotIn"@,
        Reject::AllAreUsed => "allAreUsed"@,
        Reject::NotAllAreUsed => "notAllAreUsed"@,
    }
}

impl Reject {
    /// The mode that a configuration document names, if any.
    pub fn from_name(name: &str) -> (r: Option<Reject>)
        ensures
            r matches Some(m) ==> mode_name(m) == name@,
            r is None ==> forall|m: Reject| mode_name(m) != name@,
    {
        let s = String::from_str(name);
        if s == String::from_str("anyIn") {
            Some(Reject::AnyIn)
        } else if s == String::from_str("anyNotIn") {
            Some(Reject::AnyNotIn)
        } else if s == String::from_str("allAreUsed") {
            Some(Reject::AllAreUsed)
        } else if s == String::from_str("notAllAreUsed") {
            Some(Reject::NotAllAreUsed)
        } else {
            proof {
                assert forall|m: Reject| mode_name(m) != name@ by {
                    match m {
                        Reject::AnyIn => {},
                        Reject::AnyNotIn => {},
                        Reject::AllAreUsed => {},
                        Reject::NotAllAreUsed => {},
                    }
                }
            }
            None
        }
    }
}

/// The configuration: a mode and a set of volume mount names.
#[derive(Debug)]
pub struct Settings {
    operator: Reject,
    volume_mounts_names: Vec<String>,
}

impl Settings {
    #[verifier::type_invariant]
    closed spec fn names_unique(&self) -> bool {
        views(self.volume_mounts_names@).no_duplicates()
    }

    /// The configured mode.
    pub closed spec fn mode(&self) -> Reject {
        self.operator
    }

    /// The configured names, each once.
    pub closed spec fn name_seq(&self) -> Seq<Seq<char>> {
        views(self.volume_mounts_names@)
    }

    /// The set of configured names.
    pub open spec fn names(&self) -> Set<Seq<char>> {
        self.name_seq().to_set()
    }

    /// Settings with the given mode and names; repeated names are kept once.
    pub fn new(operator: Reject, names: Vec<String>) -> (r: Settings)
        ensures
            r.mode() == operator,
            r.names() == views(names@).to_set(),
    {
        let unique = dedup_names(&names);
        Settings { operator, volume_mounts_names: unique }
    }

    /// Settings from the two fields of a configuration document, each of which
    /// may be missing: the mode then is `anyIn`, the set of names empty. A mode
    /// name that is not one of the four is refused.
    pub fn from_document(operator: Option<&str>, names: Option<Vec<String>>) -> (r: Result<
        Settings,
        String,
    >)
        ensures
            r is Ok <==> (operator matches Some(o) ==> exists|m: Reject| mode_name(m) == o@),
            r matches Ok(s) ==> {
                &&& operator matches Some(o) ==> mode_name(s.mode()) == o@
                &&& operator is None ==> s.mode() == Reject::AnyIn
                &&& s.names() == match names {
                    Some(v) => views(v@).to_set(),
                    None => Set::<Seq<char>>::empty(),
                }
            },
            r matches Err(m) ==> m@
                == "operator must be one of anyIn, anyNotIn, allAreUsed, notAllAreUsed"@,
    {
        let mode = match operator {
            Some(o) => match Reject::from_name(o) {
                Some(m) => m,
                None => {
                    return Err(
                        String::from_str(
                            "operator must be one of anyIn, anyNotIn, allAreUsed, notAllAreUsed",
                        ),
                    );
                },
            },
            None => Reject::AnyIn,
        };
        let list = match names {
            Some(v) => v,
            None => Vec::new(),
        };
        let r = Settings::new(mode, list);
        proof {
            if names is None {
                assert(views(list@).to_set() =~= Set::<Seq<char>>::empty());
            }
        }
        Ok(r)
    }

    /// The configured mode.
    pub fn operator(&self) -> (r: Reject)
        ensures
            r == self.mode(),
    {
        self.operator
    }

    /// The configured names, each once.
    pub fn volume_mounts_names(&self) -> (r: &Vec<String>)
        ensures
            views(r@) == self.name_seq(),
            views(r@).no_duplicates(),
    {
        proof {
            use_type_invariant(self);
        }
        &self.volume_mounts_names
    }

    /// Settings are usable only with at least one name.
    pub fn validate(&self) -> (r: Result<(), String>)
        ensures
            r is Err <==> self.names() == Set::<Seq<char>>::empty(),
            r matches Err(m) ==> m@ == "volumeMountsNames is empty"@,
    {
        proof {
            if self.name_seq().len() > 0 {
                assert(self.names().contains(self.name_seq()[0]));
            } else {
                assert(self.names() =~= Set::<Seq<char>>::empty());
            }
        }
        if self.volume_mounts_names.len() == 0 {
            return Err(String::from_str("volumeMountsNames is empty"));
        }
        Ok(())
    }
}

impl Default for Settings {
    /// Mode `anyIn` and no names.
    fn default() -> (r: Settings)
        ensures
            r.mode() == Reject::AnyIn,
            r.names() == Set::<Seq<char>>::empty(),
    {
        let r = Settings { operator: Reject::AnyIn, volume_mounts_names: Vec::new() };
        assert(r.names() =~= Set::<Seq<char>>::empty());
        r
    }
}

} // verus!
