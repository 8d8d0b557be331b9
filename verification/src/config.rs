//! The declaration model: named environments, each an optional variable
//! map and an optional link map, loaded from a directory's TOML
//! declaration source.
//!
//! Parsing the text goes through the `toml` crate; the declared
//! environments are then assembled and selected by verified code.

use std::collections::BTreeMap;

use vstd::prelude::*;

use crate::errors::ConfigError;
use crate::errors::SelectionError;
use crate::errors::SelectionErrorView;
use crate::smap::map_of;
use crate::smap::StrMap;

verus! {

/// One declared environment: its variables and its links (target to
/// source), either of which may be left out.
pub struct EnvironmentData {
    pub vars: Option<StrMap>,
    pub links: Option<StrMap>,
}

impl EnvironmentData {
    pub open spec fn wf(self) -> bool {
        &&& (self.vars matches Some(m) ==> m.wf())
        &&& (self.links matches Some(m) ==> m.wf())
    }
}

/// A directory's declarations: the named environments of its
/// declaration source, or `None` where the source holds no mapping.
pub struct Environments {
    pub declared: Option<Vec<(String, EnvironmentData)>>,
}

impl Environments {
    pub open spec fn wf(self) -> bool {
        self.declared matches Some(v) ==> {
            &&& (forall|i: int, j: int| 0 <= i < j < v@.len() ==> v@[i].0@ != v@[j].0@)
            &&& (forall|i: int| 0 <= i < v@.len() ==> #[trigger] v@[i].1.wf())
        }
    }

    /// At least one environment is declared.
    pub open spec fn is_declared(self) -> bool {
        self.declared matches Some(v) && v@.len() > 0
    }

    /// An environment of this name is declared.
    pub open spec fn has_env(self, name: Seq<char>) -> bool {
        self.declared matches Some(v) && exists|i: int| 0 <= i < v@.len() && v@[i].0@ == name
    }

    /// The declared environment of this name.
    pub open spec fn env_named(self, name: Seq<char>) -> EnvironmentData
        recommends
            self.has_env(name),
    {
        match self.declared {
            Some(v) => {
                let i = choose|i: int| 0 <= i < v@.len() && v@[i].0@ == name;
                v@[i].1
            },
            None => arbitrary(),
        }
    }

    /// Picks the declared environment of the given name: the owed
    /// environment when the name is declared, and the exact refusal
    /// otherwise.
    pub fn select(&self, name: &String) -> (r: Result<&EnvironmentData, SelectionError>)
        requires
            self.wf(),
        ensures
            !self.is_declared() ==> (r matches Err(e) && e@
                == SelectionErrorView::NoEnvironmentsDeclared),
            self.is_declared() && !self.has_env(name@) ==> (r matches Err(e) && e@
                == SelectionErrorView::UnknownEnvironment(name@)),
            self.has_env(name@) ==> (r matches Ok(d) && *d == self.env_named(name@) && d.wf()),
    {
        match &self.declared {
            None => Err(SelectionError::NoEnvironmentsDeclared),
            Some(v) => {
                let n = v.len();
                if n == 0 {
                    return Err(SelectionError::NoEnvironmentsDeclared);
                }
                let mut i: usize = 0;
                while i < n
                    invariant
                        i <= n,
                        n == v@.len(),
                        self.declared matches Some(w) && w == v,
                        self.wf(),
                        forall|j: int| 0 <= j < i ==> v@[j].0@ != name@,
                    decreases n - i,
                {
                    if v[i].0.eq(name) {
                        proof {
                            let w = choose|w: int| 0 <= w < v@.len() && v@[w].0@ == name@;
                            assert(w == i as int);
                        }
                        return Ok(&v[i].1);
                    }
                    i += 1;
                }
                Err(SelectionError::UnknownEnvironment(name.clone()))
            },
        }
    }
}

/// What `toml` makes of a declaration source: for each declared
/// environment, its name and its sections, each section a name and its
/// string-to-string entries; `None` when the text does not parse as
/// such nested tables.
pub uninterp spec fn toml_env_decls_parse(s: Seq<char>) -> Option<
    Seq<(Seq<char>, Seq<(Seq<char>, Seq<(Seq<char>, Seq<char>)>)>)>,
>;

/// Relies on `toml::from_str` over nested `BTreeMap<String, ..>` tables:
/// the outcome depends on the input text alone, and the keys of a
/// `BTreeMap` are unique.
#[verifier::external_body]
fn toml_env_decls_from_str(s: &str) -> (r: Option<
    Vec<(String, Vec<(String, Vec<(String, String)>)>)>,
>)
    ensures
        r.deep_view() == toml_env_decls_parse(s@),
        r matches Some(v) ==> forall|i: int, j: int|
            0 <= i < j < v.deep_view().len() ==> v.deep_view()[i].0 != v.deep_view()[j].0,
{
    match toml::from_str::<BTreeMap<String, BTreeMap<String, BTreeMap<String, String>>>>(s) {
        Ok(m) => Some(
            m.into_iter().map(
                |(k, v)|
                    (
                        k,
                        v.into_iter().map(
                            |(k2, v2)| (k2, v2.into_iter().collect()),
                        ).collect(),
                    ),
            ).collect(),
        ),
        Err(_) => None,
    }
}

/// The entries of the section of this name, if one is declared.
pub open spec fn section_named(
    secs: Seq<(Seq<char>, Seq<(Seq<char>, Seq<char>)>)>,
    name: Seq<char>,
) -> Option<Seq<(Seq<char>, Seq<char>)>>
    decreases secs.len(),
{
    if secs.len() == 0 {
        None
    } else if secs[0].0 == name {
        Some(secs[0].1)
    } else {
        section_named(secs.skip(1), name)
    }
}

/// An assembled environment holds exactly the maps of its declared
/// sections: its variables those of the section named `env`, its links
/// those of the section named `links`.
pub open spec fn data_matches(
    d: EnvironmentData,
    secs: Seq<(Seq<char>, Seq<(Seq<char>, Seq<char>)>)>,
) -> bool {
    &&& match section_named(secs, "env"@) {
        Some(ps) => d.vars matches Some(m) && m.wf() && m@ == map_of(ps),
        None => d.vars is None,
    }
    &&& match section_named(secs, "links"@) {
        Some(ps) => d.links matches Some(m) && m.wf() && m@ == map_of(ps),
        None => d.links is None,
    }
}

/// Assembled declarations hold exactly the parsed environments, by name
/// and in order.
pub open spec fn decls_match(
    envs: Environments,
    ds: Seq<(Seq<char>, Seq<(Seq<char>, Seq<(Seq<char>, Seq<char>)>)>)>,
) -> bool {
    &&& envs.declared matches Some(v)
    &&& envs.declared matches Some(v) ==> {
        &&& v@.len() == ds.len()
        &&& forall|i: int|
            0 <= i < ds.len() ==> (#[trigger] v@[i].0@) == ds[i].0 && data_matches(v@[i].1, ds[i].1)
    }
}

/// Looks a section up by name among the parsed sections of one
/// environment, and builds its map.
fn section_map(secs: &Vec<(String, Vec<(String, String)>)>, name: &str) -> (r: Option<StrMap>)
    ensures
        match section_named(secs.deep_view(), name@) {
            Some(ps) => r matches Some(m) && m.wf() && m@ == map_of(ps),
            None => r is None,
        },
{
    let n = secs.len();
    let mut i: usize = 0;
    proof {
        assert(secs.deep_view().skip(0) =~= secs.deep_view());
    }
    while i < n
        invariant
            i <= n,
            n == secs.deep_view().len(),
            section_named(secs.deep_view(), name@) == section_named(
                secs.deep_view().skip(i as int),
                name@,
            ),
        decreases n - i,
    {
        proof {
            assert(secs.deep_view().skip(i as int)[0] == secs.deep_view()[i as int]);
            assert(secs.deep_view().skip(i as int).skip(1) =~= secs.deep_view().skip(i + 1));
        }
        if crate::text::str_eq(secs[i].0.as_str(), name) {
            let pairs_copy = copy_pairs(&secs[i].1);
            return Some(StrMap::from_pairs(pairs_copy));
        }
        i += 1;
    }
    proof {
        assert(secs.deep_view().skip(n as int) =~= Seq::<
            (Seq<char>, Seq<(Seq<char>, Seq<char>)>),
        >::empty());
    }
    None
}

/// Copies a pair list.
fn copy_pairs(ps: &Vec<(String, String)>) -> (r: Vec<(String, String)>)
    ensures
        r.deep_view() == ps.deep_view(),
{
    let n = ps.len();
    let mut out: Vec<(String, String)> = Vec::new();
    let mut i: usize = 0;
    while i < n
        invariant
            i <= n,
            n == ps.deep_view().len(),
            out.deep_view() =~= ps.deep_view().take(i as int),
        decreases n - i,
    {
        let k = ps[i].0.clone();
        let v = ps[i].1.clone();
        let ghost prev = out.deep_view();
        out.push((k, v));
        proof {
            assert(out.deep_view() =~= prev.push((k@, v@)));
            assert(out.deep_view() =~= ps.deep_view().take(i + 1));
        }
        i += 1;
    }
    proof {
        assert(ps.deep_view().take(n as int) =~= ps.deep_view());
    }
    out
}

/// Parses a declaration source into the environments it declares, with
/// the exact refusal when the text does not parse.
pub fn parse_declarations(text: &str) -> (r: Result<Environments, ConfigError>)
    ensures
        toml_env_decls_parse(text@) matches Some(ds) ==> (r matches Ok(envs) && envs.wf()
            && decls_match(envs, ds)),
        toml_env_decls_parse(text@) is None ==> (r matches Err(e) && e == ConfigError::Parse),
{
    let parsed = match toml_env_decls_from_str(text) {
        Some(v) => v,
        None => {
            return Err(ConfigError::Parse);
        },
    };
    let ghost ds = parsed.deep_view();
    let n = parsed.len();
    let mut out: Vec<(String, EnvironmentData)> = Vec::new();
    let mut i: usize = 0;
    while i < n
        invariant
            i <= n,
            n == ds.len(),
            parsed.deep_view() == ds,
            forall|p: int, q: int| 0 <= p < q < ds.len() ==> ds[p].0 != ds[q].0,
            out@.len() == i,
            forall|j: int|
                0 <= j < i ==> (#[trigger] out@[j].0@) == ds[j].0 && data_matches(
                    out@[j].1,
                    ds[j].1,
                ),
        decreases n - i,
    {
        let name = parsed[i].0.clone();
        let vars = section_map(&parsed[i].1, "env");
        let links = section_map(&parsed[i].1, "links");
        proof {
            assert(parsed.deep_view()[i as int].1 == parsed@[i as int].1.deep_view());
        }
        out.push((name, EnvironmentData { vars, links }));
        i += 1;
    }
    let envs = Environments { declared: Some(out) };
    proof {
        assert forall|j: int| 0 <= j < out@.len() implies #[trigger] out@[j].1.wf() by {
            assert(out@[j].0@ == ds[j].0);
            assert(data_matches(out@[j].1, ds[j].1));
        }
        assert(envs.wf());
        assert(decls_match(envs, ds));
    }
    Ok(envs)
}

} // verus!
