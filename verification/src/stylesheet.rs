//! The read-only view of a parent stylesheet that single-rule parsing
//! consumes: origin, URL-resolution data, quirks flag, and the namespace
//! table that an `@namespace` rule mutates as a side effect.

use vstd::prelude::*;

use crate::url_data::UrlExtraData;

verus! {

/// Where a stylesheet comes from; it decides which rules may apply.
#[derive(Clone, Copy, Debug, PartialEq, Eq, Structural)]
pub enum Origin {
    UserAgent,
    User,
    Author,
}

/// One registered namespace: a prefix bound to a namespace URL.
pub struct NamespaceEntry {
    pub prefix: String,
    pub url: String,
}

/// The mathematical content of a namespace table.
pub struct NamespacesModel {
    pub default: Option<Seq<char>>,
    pub prefixes: Seq<(Seq<char>, Seq<char>)>,
}

/// The URL bound to `prefix`, the most recent registration winning.
pub open spec fn lookup_of(s: Seq<(Seq<char>, Seq<char>)>, prefix: Seq<char>) -> Option<Seq<char>>
    decreases s,
{
    if s.len() == 0 {
        Option::None
    } else if s.last().0 == prefix {
        Option::Some(s.last().1)
    } else {
        lookup_of(s.drop_last(), prefix)
    }
}

impl NamespacesModel {
    /// The table after registering one namespace rule.
    pub open spec fn registered(self, prefix: Option<Seq<char>>, url: Seq<char>) -> NamespacesModel {
        match prefix {
            Option::None => NamespacesModel { default: Option::Some(url), prefixes: self.prefixes },
            Option::Some(p) => NamespacesModel {
                default: self.default,
                prefixes: self.prefixes.push((p, url)),
            },
        }
    }
}

/// The namespace table of one stylesheet.
pub struct Namespaces {
    default: Option<String>,
    prefixes: Vec<NamespaceEntry>,
}

impl View for Namespaces {
    type V = NamespacesModel;

    closed spec fn view(&self) -> NamespacesModel {
        NamespacesModel {
            default: match self.default {
                Option::None => Option::None,
                Option::Some(d) => Option::Some(d@),
            },
            prefixes: Seq::new(
                self.prefixes@.len(),
                |i: int| (self.prefixes@[i].prefix@, self.prefixes@[i].url@),
            ),
        }
    }
}

impl Namespaces {
    /// An empty table.
    pub fn new() -> (r: Namespaces)
        ensures
            r@.default is None,
            r@.prefixes.len() == 0,
    {
        Namespaces { default: None, prefixes: Vec::new() }
    }

    /// Registers a namespace; a later registration of the same prefix wins.
    pub fn register(&mut self, prefix: Option<String>, url: String)
        ensures
            final(self)@ == old(self)@.registered(
                match prefix {
                    Option::None => Option::None,
                    Option::Some(p) => Option::Some(p@),
                },
                url@,
            ),
    {
        match prefix {
            None => {
                self.default = Some(url);
                proof {
                    assert(self@.prefixes =~= old(self)@.prefixes);
                }
            },
            Some(p) => {
                self.prefixes.push(NamespaceEntry { prefix: p, url });
                proof {
                    assert(self@.prefixes =~= old(self)@.prefixes.push(
                        (self.prefixes@.last().prefix@, self.prefixes@.last().url@),
                    ));
                }
            },
        }
    }

    /// The URL registered for the default namespace, if any.
    pub fn default_url(&self) -> (r: Option<&String>)
        ensures
            match r {
                Option::Some(u) => self@.default == Option::Some(u@),
                Option::None => self@.default is None,
            },
    {
        self.default.as_ref()
    }

    /// Looks a prefix up; the most recent registration wins.
    pub fn get(&self, prefix: &str) -> (r: Option<&String>)
        ensures
            match r {
                Option::Some(u) => lookup_of(self@.prefixes, prefix@) == Option::Some(u@),
                Option::None => lookup_of(self@.prefixes, prefix@) is None,
            },
    {
        let n = self.prefixes.len();
        let mut i: usize = n;
        proof {
            assert(self@.prefixes.subrange(0, n as int) =~= self@.prefixes);
        }
        while i > 0
            invariant
                0 <= i <= n,
                n == self.prefixes.len(),
                lookup_of(self@.prefixes, prefix@) == lookup_of(
                    self@.prefixes.subrange(0, i as int),
                    prefix@,
                ),
            decreases i,
        {
            proof {
                assert(self@.prefixes.subrange(0, i as int).last() == self@.prefixes[i - 1]);
                assert(self@.prefixes.subrange(0, i as int).drop_last() =~= self@.prefixes.subrange(
                    0,
                    i - 1,
                ));
            }
            let e = &self.prefixes[i - 1];
            if crate::scan::eq_range(e.prefix.as_str(), 0, e.prefix.as_str().unicode_len(), prefix) {
                proof {
                    assert(e.prefix@.subrange(0, e.prefix@.len() as int) =~= e.prefix@);
                    assert(self@.prefixes[i - 1].0 == prefix@);
                }
                return Some(&e.url);
            }
            proof {
                assert(e.prefix@.subrange(0, e.prefix@.len() as int) =~= e.prefix@);
            }
            i -= 1;
        }
        proof {
            assert(self@.prefixes.subrange(0, 0) =~= Seq::<(Seq<char>, Seq<char>)>::empty());
        }
        None
    }
}

/// A capability for resolving nested `@import` loads; the fetch itself
/// happens entirely outside this core.
pub struct StylesheetLoader {}

/// The parts of a parent stylesheet that single-rule parsing reads, and
/// the namespace table it may extend.
pub struct StylesheetContents {
    pub origin: Origin,
    pub url_data: UrlExtraData,
    pub quirks_mode: bool,
    pub namespaces: Namespaces,
}

} // verus!
