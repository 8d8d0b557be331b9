//! The persisted active state of one directory and its record codecs.
//!
//! Two records exist per directory: an active-variables record (a JSON
//! document holding an optional name-to-value map) and an active-links
//! record (a line-oriented TOML document of target-to-source pairs).
//! Reading and writing the documents goes through the `serde_json` and
//! `toml` crates; what those calls return is named, and everything
//! around the calls is verified against those names.

use std::collections::BTreeMap;

use vstd::prelude::*;

use crate::errors::StateStoreError;
use crate::smap::map_of;
use crate::smap::StrMap;

verus! {

/// What `serde_json` makes of an active-variables document: the pairs of
/// the optional map it holds, or, for a failure, whether the failure was
/// running out of input.
pub uninterp spec fn json_env_parse(s: Seq<char>) -> Result<
    Option<Seq<(Seq<char>, Seq<char>)>>,
    bool,
>;

/// The JSON document `serde_json` writes for a variable map, keys
/// ordered; `None` for a serialization failure.
pub uninterp spec fn json_env_encode(ps: Seq<(Seq<char>, Seq<char>)>) -> Option<Seq<char>>;

/// The indented JSON document `serde_json` writes for a variable map,
/// keys ordered; `None` for a serialization failure.
pub uninterp spec fn json_env_encode_pretty(ps: Seq<(Seq<char>, Seq<char>)>) -> Option<Seq<char>>;

/// What `toml` makes of a string-to-string document: its pairs in key
/// order, or `None` when the document does not parse as one.
pub uninterp spec fn toml_kv_parse(s: Seq<char>) -> Option<Seq<(Seq<char>, Seq<char>)>>;

/// Relies on `serde_json::from_str` over `Option<BTreeMap<String, String>>`
/// and on `serde_json::Error::is_eof`: both outcomes depend on the input
/// text alone.
#[verifier::external_body]
fn json_env_from_str(s: &str) -> (r: Result<Option<Vec<(String, String)>>, bool>)
    ensures
        match r {
            Ok(v) => json_env_parse(s@) == Ok::<_, bool>(v.deep_view()),
            Err(eof) => json_env_parse(s@) == Err::<Option<Seq<(Seq<char>, Seq<char>)>>, _>(eof),
        },
{
    match serde_json::from_str::<Option<BTreeMap<String, String>>>(s) {
        Ok(Some(m)) => Ok(Some(m.into_iter().collect())),
        Ok(None) => Ok(None),
        Err(e) => Err(e.is_eof()),
    }
}

/// Relies on `serde_json::to_string` over a `BTreeMap<String, String>`:
/// the document depends on the entries alone.
#[verifier::external_body]
fn json_env_to_string(ps: &Vec<(String, String)>) -> (r: Option<String>)
    ensures
        r.deep_view() == json_env_encode(ps.deep_view()),
{
    let m: BTreeMap<&str, &str> = ps.iter().map(|p| (p.0.as_str(), p.1.as_str())).collect();
    serde_json::to_string(&m).ok()
}

/// Relies on `serde_json::to_string_pretty` over a
/// `BTreeMap<String, String>`: the document depends on the entries alone.
#[verifier::external_body]
fn json_env_to_string_pretty(ps: &Vec<(String, String)>) -> (r: Option<String>)
    ensures
        r.deep_view() == json_env_encode_pretty(ps.deep_view()),
{
    let m: BTreeMap<&str, &str> = ps.iter().map(|p| (p.0.as_str(), p.1.as_str())).collect();
    serde_json::to_string_pretty(&m).ok()
}

/// Relies on `toml::from_str` over a `BTreeMap<String, String>`: the
/// outcome depends on the input text alone.
#[verifier::external_body]
fn toml_kv_from_str(s: &str) -> (r: Option<Vec<(String, String)>>)
    ensures
        r.deep_view() == toml_kv_parse(s@),
{
    match toml::from_str::<BTreeMap<String, String>>(s) {
        Ok(m) => Some(m.into_iter().collect()),
        Err(_) => None,
    }
}

/// Reads an active-variables record.  A document that holds no map, or
/// one cut short before any content (an empty file), means "no variables
/// recorded" and is not an error; any other unreadable document is.
pub fn read_env_record(text: &str) -> (r: Result<StrMap, StateStoreError>)
    ensures
        json_env_parse(text@) matches Ok(Some(ps)) ==> (r matches Ok(m) && m.wf() && m@ == map_of(
            ps,
        )),
        json_env_parse(text@) matches Ok(None) ==> (r matches Ok(m) && m.wf() && m@ == Map::<
            Seq<char>,
            Seq<char>,
        >::empty()),
        json_env_parse(text@) == Err::<Option<Seq<(Seq<char>, Seq<char>)>>, bool>(true) ==> (
        r matches Ok(m) && m.wf() && m@ == Map::<Seq<char>, Seq<char>>::empty()),
        json_env_parse(text@) == Err::<Option<Seq<(Seq<char>, Seq<char>)>>, bool>(false)
            ==> (r matches Err(e) && e == StateStoreError::CorruptVariables),
{
    match json_env_from_str(text) {
        Ok(Some(pairs)) => Ok(StrMap::from_pairs(pairs)),
        Ok(None) => Ok(StrMap::new()),
        Err(true) => Ok(StrMap::new()),
        Err(false) => Err(StateStoreError::CorruptVariables),
    }
}

/// Writes an active-variables record for the given map.
pub fn write_env_record(vars: &StrMap) -> (r: Option<String>)
    ensures
        r.deep_view() == json_env_encode(vars.kvs()),
{
    json_env_to_string(vars.entries())
}

/// Renders the variable map artifact kept beside the records, as an
/// indented JSON document.
pub fn write_env_pretty(vars: &StrMap) -> (r: Option<String>)
    ensures
        r.deep_view() == json_env_encode_pretty(vars.kvs()),
{
    json_env_to_string_pretty(vars.entries())
}

/// Reads an active-links record.
pub fn read_links_record(text: &str) -> (r: Result<StrMap, StateStoreError>)
    ensures
        toml_kv_parse(text@) matches Some(ps) ==> (r matches Ok(m) && m.wf() && m@ == map_of(ps)),
        toml_kv_parse(text@) is None ==> (r matches Err(e) && e == StateStoreError::CorruptLinks),
{
    match toml_kv_from_str(text) {
        Some(pairs) => Ok(StrMap::from_pairs(pairs)),
        None => Err(StateStoreError::CorruptLinks),
    }
}

/// One line of the active-links record: `"target"="source"`.
pub open spec fn link_record_line(target: Seq<char>, source: Seq<char>) -> Seq<char> {
    "\""@ + target + "\"=\""@ + source + "\"\n"@
}

/// Renders one line of the active-links record.
pub fn encode_link_record_line(target: &str, source: &str) -> (r: String)
    ensures
        r@ == link_record_line(target@, source@),
{
    let mut s = "\"".to_owned();
    s.append(target);
    s.append("\"=\"");
    s.append(source);
    s.append("\"\n");
    proof {
        assert(s@ =~= link_record_line(target@, source@));
    }
    s
}

/// The persisted active state of one directory: what each of the two
/// records holds, or `None` where a record is absent.
pub struct ActiveState {
    /// The active-variables record.
    pub vars: Option<StrMap>,
    /// The active-links record, mapping link target to link source.
    pub links: Option<StrMap>,
}

impl ActiveState {
    pub open spec fn wf(self) -> bool {
        &&& (self.vars matches Some(m) ==> m.wf())
        &&& (self.links matches Some(m) ==> m.wf())
    }

    /// No record is present: nothing is active.
    pub open spec fn is_inactive(self) -> bool {
        self.vars is None && self.links is None
    }

    pub fn inactive() -> (s: ActiveState)
        ensures
            s.wf(),
            s.is_inactive(),
    {
        ActiveState { vars: None, links: None }
    }
}

} // verus!
