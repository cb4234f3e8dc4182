//! The canonical package-metadata model and its tolerant decoder.
//!
//! Upstream metadata has drifted between several incompatible JSON shapes:
//! a license may be a string, a record, a list of records, or a bare
//! name/URL record; a maintainer may be a string or a record; the platform
//! list may arrive nested one level too deep.  The decoder resolves each
//! shape by an explicit ordered attempt, most specific first, exactly as
//! the spec functions below state; an input matching none of the known
//! shapes is a hard decode failure, never a silent default.

use vstd::prelude::*;

use crate::json::{obj_get, parse_json, parsed_json, JsonValue};
use crate::json;
use crate::proc::{CommandError, DecodeError};
use crate::text::{first_at, lemma_first_at_scan, parse_u64, spec_parse_u64};

verus! {

// ------------------------------------------------------------------
// The model types and their mathematical views.
// ------------------------------------------------------------------
/// A full license record.
#[derive(Debug, PartialEq, Clone)]
pub struct FullLicense {
    pub full_name: String,
    pub short_name: String,
    pub spdx_id: Option<String>,
    pub url: Option<String>,
    pub free: bool,
}

pub struct SpecFullLicense {
    pub full_name: Seq<char>,
    pub short_name: Seq<char>,
    pub spdx_id: Option<Seq<char>>,
    pub url: Option<Seq<char>>,
    pub free: bool,
}

pub open spec fn view_opt_str(o: Option<String>) -> Option<Seq<char>> {
    match o {
        Some(s) => Some(s@),
        None => None,
    }
}

impl View for FullLicense {
    type V = SpecFullLicense;

    open spec fn view(&self) -> SpecFullLicense {
        SpecFullLicense {
            full_name: self.full_name@,
            short_name: self.short_name@,
            spdx_id: view_opt_str(self.spdx_id),
            url: view_opt_str(self.url),
            free: self.free,
        }
    }
}

/// A license record carrying only a full name.
#[derive(Debug, PartialEq, Clone)]
pub struct NamedLicense {
    pub full_name: String,
}

/// A license record carrying only a URL.
#[derive(Debug, PartialEq, Clone)]
pub struct UrlLicense {
    pub url: String,
}

/// A license, polymorphic over the shapes the upstream data has used.
#[derive(Debug, PartialEq, Clone)]
pub enum License {
    Id(String),
    Full(FullLicense),
    FullVec(Vec<FullLicense>),
    Named(NamedLicense),
    Url(UrlLicense),
}

pub enum SpecLicense {
    Id(Seq<char>),
    Full(SpecFullLicense),
    FullVec(Seq<SpecFullLicense>),
    Named(Seq<char>),
    Url(Seq<char>),
}

impl View for License {
    type V = SpecLicense;

    open spec fn view(&self) -> SpecLicense {
        match self {
            License::Id(s) => SpecLicense::Id(s@),
            License::Full(f) => SpecLicense::Full(f@),
            License::FullVec(fs) => SpecLicense::FullVec(
                fs@.map_values(|f: FullLicense| f@),
            ),
            License::Named(n) => SpecLicense::Named(n.full_name@),
            License::Url(u) => SpecLicense::Url(u.url@),
        }
    }
}

/// A `path:line` source position.
#[derive(Debug, PartialEq, Clone)]
pub struct NixPath {
    pub path: String,
    pub line: u64,
}

pub struct SpecNixPath {
    pub path: Seq<char>,
    pub line: int,
}

impl View for NixPath {
    type V = SpecNixPath;

    open spec fn view(&self) -> SpecNixPath {
        SpecNixPath { path: self.path@, line: self.line as int }
    }
}

/// Failure to parse a `path:line` source position.
#[derive(Debug, PartialEq, Clone)]
pub enum NixPathParseErr {
    BadSplit,
}

/// A maintainer's signing key.
#[derive(Debug, PartialEq, Clone)]
pub struct Key {
    pub longkeyid: String,
    pub fingerprint: String,
}

pub struct SpecKey {
    pub longkeyid: Seq<char>,
    pub fingerprint: Seq<char>,
}

impl View for Key {
    type V = SpecKey;

    open spec fn view(&self) -> SpecKey {
        SpecKey { longkeyid: self.longkeyid@, fingerprint: self.fingerprint@ }
    }
}

/// A structured maintainer record.
#[derive(Debug, PartialEq, Clone)]
pub struct MaintainerInfo {
    pub name: Option<String>,
    pub email: String,
    pub github: Option<String>,
    pub github_id: Option<u64>,
    pub keys: Vec<Key>,
}

pub struct SpecMaintainerInfo {
    pub name: Option<Seq<char>>,
    pub email: Seq<char>,
    pub github: Option<Seq<char>>,
    pub github_id: Option<int>,
    pub keys: Seq<SpecKey>,
}

impl View for MaintainerInfo {
    type V = SpecMaintainerInfo;

    open spec fn view(&self) -> SpecMaintainerInfo {
        SpecMaintainerInfo {
            name: view_opt_str(self.name),
            email: self.email@,
            github: view_opt_str(self.github),
            github_id: match self.github_id {
                Some(i) => Some(i as int),
                None => None,
            },
            keys: self.keys@.map_values(|k: Key| k@),
        }
    }
}

/// A maintainer: a bare name, or a structured record.
#[derive(Debug, PartialEq, Clone)]
pub enum Maintainer {
    Name(String),
    Info(MaintainerInfo),
}

pub enum SpecMaintainer {
    Name(Seq<char>),
    Info(SpecMaintainerInfo),
}

impl View for Maintainer {
    type V = SpecMaintainer;

    open spec fn view(&self) -> SpecMaintainer {
        match self {
            Maintainer::Name(s) => SpecMaintainer::Name(s@),
            Maintainer::Info(i) => SpecMaintainer::Info(i@),
        }
    }
}

/// Package metadata.  Every field is optional or defaulted because the
/// upstream data is inconsistent.
#[derive(Debug, PartialEq, Clone)]
pub struct NixMeta {
    pub available: bool,
    pub broken: bool,
    pub description: Option<String>,
    pub long_description: Option<String>,
    pub homepage: Option<String>,
    pub license: Option<License>,
    pub name: Option<String>,
    pub outputs_to_install: Vec<String>,
    pub platforms: Vec<String>,
    pub position: Option<NixPath>,
    pub priority: Option<i64>,
    pub maintainers: Vec<Maintainer>,
}

pub struct SpecNixMeta {
    pub available: bool,
    pub broken: bool,
    pub description: Option<Seq<char>>,
    pub long_description: Option<Seq<char>>,
    pub homepage: Option<Seq<char>>,
    pub license: Option<SpecLicense>,
    pub name: Option<Seq<char>>,
    pub outputs_to_install: Seq<Seq<char>>,
    pub platforms: Seq<Seq<char>>,
    pub position: Option<SpecNixPath>,
    pub priority: Option<int>,
    pub maintainers: Seq<SpecMaintainer>,
}

impl View for NixMeta {
    type V = SpecNixMeta;

    open spec fn view(&self) -> SpecNixMeta {
        SpecNixMeta {
            available: self.available,
            broken: self.broken,
            description: view_opt_str(self.description),
            long_description: view_opt_str(self.long_description),
            homepage: view_opt_str(self.homepage),
            license: match self.license {
                Some(l) => Some(l@),
                None => None,
            },
            name: view_opt_str(self.name),
            outputs_to_install: self.outputs_to_install@.map_values(|s: String| s@),
            platforms: self.platforms@.map_values(|s: String| s@),
            position: match self.position {
                Some(p) => Some(p@),
                None => None,
            },
            priority: match self.priority {
                Some(p) => Some(p as int),
                None => None,
            },
            maintainers: self.maintainers@.map_values(|m: Maintainer| m@),
        }
    }
}

/// One resolved package record.
#[derive(Debug, PartialEq, Clone)]
pub struct NixInfo {
    pub name: String,
    pub pname: String,
    pub version: String,
    pub system: String,
    pub meta: NixMeta,
    pub attr: Option<String>,
}

pub struct SpecNixInfo {
    pub name: Seq<char>,
    pub pname: Seq<char>,
    pub version: Seq<char>,
    pub system: Seq<char>,
    pub meta: SpecNixMeta,
    pub attr: Option<Seq<char>>,
}

impl View for NixInfo {
    type V = SpecNixInfo;

    open spec fn view(&self) -> SpecNixInfo {
        SpecNixInfo {
            name: self.name@,
            pname: self.pname@,
            version: self.version@,
            system: self.system@,
            meta: self.meta@,
            attr: view_opt_str(self.attr),
        }
    }
}

impl SpecNixInfo {
    /// Every record carries a non-empty name, short name, version and
    /// platform triple.
    pub open spec fn wf(&self) -> bool {
        self.name.len() > 0 && self.pname.len() > 0 && self.version.len() > 0
            && self.system.len() > 0
    }
}

/// Borrows a full license for rendering.
pub struct ConsoleFormatFullLicense<'a>(pub &'a FullLicense);

impl FullLicense {
    /// A rendering handle for this license record.
    pub fn console_fmt<'a>(&'a self) -> (r: ConsoleFormatFullLicense<'a>)
        ensures
            r.0 == self,
    {
        ConsoleFormatFullLicense(self)
    }
}

/// Borrows a license for rendering.
pub struct ConsoleFormatLicense<'a>(pub &'a License);

impl License {
    /// A rendering handle for this license.
    pub fn console_fmt<'a>(&'a self) -> (r: ConsoleFormatLicense<'a>)
        ensures
            r.0 == self,
    {
        ConsoleFormatLicense(self)
    }
}

/// All records of a bulk JSON query, keyed by attribute path, in the
/// parser's (deterministic) entry order.
#[derive(Debug, PartialEq, Clone)]
pub struct AllNixInfo {
    pub attrs: Vec<(String, NixInfo)>,
}

impl View for AllNixInfo {
    type V = Seq<(Seq<char>, SpecNixInfo)>;

    open spec fn view(&self) -> Seq<(Seq<char>, SpecNixInfo)> {
        self.attrs@.map_values(|e: (String, NixInfo)| (e.0@, e.1@))
    }
}

// ------------------------------------------------------------------
// Shape resolution, stated as spec functions.
// ------------------------------------------------------------------
/// An optional string field: absent and `null` are `None`; any other
/// non-string value is a failure.
pub open spec fn spec_opt_str(g: Option<JsonValue>) -> Option<Option<Seq<char>>> {
    match g {
        None => Some(None),
        Some(JsonValue::Null) => Some(None),
        Some(JsonValue::Str(s)) => Some(Some(s@)),
        Some(_) => None,
    }
}

/// A required string field.
pub open spec fn spec_req_str(g: Option<JsonValue>) -> Option<Seq<char>> {
    match g {
        Some(JsonValue::Str(s)) => Some(s@),
        _ => None,
    }
}

/// A boolean field with a default for the absent case; `null` is a
/// failure, not the default.
pub open spec fn spec_bool_or(g: Option<JsonValue>, d: bool) -> Option<bool> {
    match g {
        None => Some(d),
        Some(JsonValue::Bool(b)) => Some(b),
        _ => None,
    }
}

/// An optional integer field.
pub open spec fn spec_opt_int(g: Option<JsonValue>) -> Option<Option<int>> {
    match g {
        None => Some(None),
        Some(JsonValue::Null) => Some(None),
        Some(JsonValue::Int(i)) => Some(Some(i as int)),
        Some(_) => None,
    }
}

/// The full-record license shape: `fullName` and `shortName` are required
/// strings, `spdxId` and `url` optional strings, `free` a boolean that
/// defaults to true.
pub open spec fn spec_full_license(o: Seq<(String, JsonValue)>) -> Option<SpecFullLicense> {
    match (obj_get(o, "fullName"@), obj_get(o, "shortName"@)) {
        (Some(JsonValue::Str(fu)), Some(JsonValue::Str(sh))) => {
            match (
                spec_opt_str(obj_get(o, "spdxId"@)),
                spec_opt_str(obj_get(o, "url"@)),
                spec_bool_or(obj_get(o, "free"@), true),
            ) {
                (Some(sp), Some(u), Some(fr)) => Some(
                    SpecFullLicense {
                        full_name: fu@,
                        short_name: sh@,
                        spdx_id: sp,
                        url: u,
                        free: fr,
                    },
                ),
                _ => None,
            }
        },
        _ => None,
    }
}

/// A list in which every element is a full-record license.
pub open spec fn spec_full_vec(elems: Seq<JsonValue>) -> Option<Seq<SpecFullLicense>>
    decreases elems.len(),
{
    if elems.len() == 0 {
        Some(Seq::empty())
    } else {
        match elems[0] {
            JsonValue::Obj(e) => match (spec_full_license(e@), spec_full_vec(elems.skip(1))) {
                (Some(f), Some(rest)) => Some(seq![f] + rest),
                _ => None,
            },
            _ => None,
        }
    }
}

/// License shape resolution, most specific shape first: a bare string,
/// then the full record, then a list of full records, then a record with
/// only a full name, then a record with only a URL.
pub open spec fn spec_license(v: JsonValue) -> Option<SpecLicense> {
    match v {
        JsonValue::Str(s) => Some(SpecLicense::Id(s@)),
        JsonValue::Obj(entries) => {
            if spec_full_license(entries@) is Some {
                Some(SpecLicense::Full(spec_full_license(entries@)->Some_0))
            } else {
                match obj_get(entries@, "fullName"@) {
                    Some(JsonValue::Str(n)) => Some(SpecLicense::Named(n@)),
                    _ => match obj_get(entries@, "url"@) {
                        Some(JsonValue::Str(u)) => Some(SpecLicense::Url(u@)),
                        _ => None,
                    },
                }
            }
        },
        JsonValue::Arr(elems) => match spec_full_vec(elems@) {
            Some(fs) => Some(SpecLicense::FullVec(fs)),
            None => None,
        },
        _ => None,
    }
}

/// The license field: absent and `null` are no license at all.
pub open spec fn spec_license_field(g: Option<JsonValue>) -> Option<Option<SpecLicense>> {
    match g {
        None => Some(None),
        Some(JsonValue::Null) => Some(None),
        Some(v) => match spec_license(v) {
            Some(l) => Some(Some(l)),
            None => None,
        },
    }
}

/// A `path:line` source position: everything before the first `:` is the
/// path, and the whole suffix after it must be a positive decimal line
/// number.  A string without a `:`, with a non-numeric or zero suffix, or
/// with anything trailing the number, fails.
pub open spec fn spec_nix_path(s: Seq<char>) -> Option<SpecNixPath> {
    if !s.contains(':') {
        None
    } else {
        let p = first_at(s, ':');
        match spec_parse_u64(s.skip(p + 1)) {
            Some(n) => if n >= 1 {
                Some(SpecNixPath { path: s.take(p), line: n })
            } else {
                None
            },
            None => None,
        }
    }
}

/// The source-position field.
pub open spec fn spec_position_field(g: Option<JsonValue>) -> Option<Option<SpecNixPath>> {
    match g {
        None => Some(None),
        Some(JsonValue::Null) => Some(None),
        Some(JsonValue::Str(s)) => match spec_nix_path(s@) {
            Some(p) => Some(Some(p)),
            None => None,
        },
        Some(_) => None,
    }
}

/// A list in which every element is a string.
pub open spec fn spec_str_seq(elems: Seq<JsonValue>) -> Option<Seq<Seq<char>>>
    decreases elems.len(),
{
    if elems.len() == 0 {
        Some(Seq::empty())
    } else {
        match elems[0] {
            JsonValue::Str(s) => match spec_str_seq(elems.skip(1)) {
                Some(rest) => Some(seq![s@] + rest),
                None => None,
            },
            _ => None,
        }
    }
}

/// A list of lists of strings, flattened by concatenation in encounter
/// order.
pub open spec fn spec_str_seq_nested(elems: Seq<JsonValue>) -> Option<Seq<Seq<char>>>
    decreases elems.len(),
{
    if elems.len() == 0 {
        Some(Seq::empty())
    } else {
        match elems[0] {
            JsonValue::Arr(inner) => match (
                spec_str_seq(inner@),
                spec_str_seq_nested(elems.skip(1)),
            ) {
                (Some(a), Some(rest)) => Some(a + rest),
                _ => None,
            },
            _ => None,
        }
    }
}

/// Platform-list shape resolution: a flat list of strings is accepted
/// as-is; a list of lists of strings — a known upstream defect — is
/// flattened one level, in encounter order.
pub open spec fn spec_platforms_value(v: JsonValue) -> Option<Seq<Seq<char>>> {
    match v {
        JsonValue::Arr(elems) => match spec_str_seq(elems@) {
            Some(flat) => Some(flat),
            None => spec_str_seq_nested(elems@),
        },
        _ => None,
    }
}

/// The platforms field: absent defaults to the empty list; `null` fails.
pub open spec fn spec_platforms_field(g: Option<JsonValue>) -> Option<Seq<Seq<char>>> {
    match g {
        None => Some(Seq::empty()),
        Some(v) => spec_platforms_value(v),
    }
}

/// A string-list field that defaults to empty when absent.
pub open spec fn spec_str_list_field(g: Option<JsonValue>) -> Option<Seq<Seq<char>>> {
    match g {
        None => Some(Seq::empty()),
        Some(JsonValue::Arr(elems)) => spec_str_seq(elems@),
        Some(_) => None,
    }
}

/// A maintainer key record: `longkeyid` and `fingerprint` are required
/// strings.
pub open spec fn spec_key(o: Seq<(String, JsonValue)>) -> Option<SpecKey> {
    match (obj_get(o, "longkeyid"@), obj_get(o, "fingerprint"@)) {
        (Some(JsonValue::Str(l)), Some(JsonValue::Str(f))) => Some(
            SpecKey { longkeyid: l@, fingerprint: f@ },
        ),
        _ => None,
    }
}

/// A list in which every element is a key record.
pub open spec fn spec_keys(elems: Seq<JsonValue>) -> Option<Seq<SpecKey>>
    decreases elems.len(),
{
    if elems.len() == 0 {
        Some(Seq::empty())
    } else {
        match elems[0] {
            JsonValue::Obj(e) => match (spec_key(e@), spec_keys(elems.skip(1))) {
                (Some(k), Some(rest)) => Some(seq![k] + rest),
                _ => None,
            },
            _ => None,
        }
    }
}

/// An optional nonnegative integer field (a GitHub id).
pub open spec fn spec_opt_uint(g: Option<JsonValue>) -> Option<Option<int>> {
    match g {
        None => Some(None),
        Some(JsonValue::Null) => Some(None),
        Some(JsonValue::Int(i)) => if i >= 0 {
            Some(Some(i as int))
        } else {
            None
        },
        Some(_) => None,
    }
}

/// The structured maintainer shape: `email` is a required string; `name`
/// and `github` optional strings; `githubId` an optional nonnegative
/// integer; `keys` a list of key records that defaults to empty.
pub open spec fn spec_maintainer_info(o: Seq<(String, JsonValue)>) -> Option<SpecMaintainerInfo> {
    let keys = match obj_get(o, "keys"@) {
        None => Some(Seq::<SpecKey>::empty()),
        Some(JsonValue::Arr(elems)) => spec_keys(elems@),
        Some(_) => None,
    };
    match obj_get(o, "email"@) {
        Some(JsonValue::Str(em)) => {
            match (
                spec_opt_str(obj_get(o, "name"@)),
                spec_opt_str(obj_get(o, "github"@)),
                spec_opt_uint(obj_get(o, "githubId"@)),
                keys,
            ) {
                (Some(na), Some(gh), Some(gi), Some(ks)) => Some(
                    SpecMaintainerInfo { name: na, email: em@, github: gh, github_id: gi, keys: ks },
                ),
                _ => None,
            }
        },
        _ => None,
    }
}

/// Maintainer shape resolution: a bare string is a plain name; an object
/// is a structured record.
pub open spec fn spec_maintainer(v: JsonValue) -> Option<SpecMaintainer> {
    match v {
        JsonValue::Str(s) => Some(SpecMaintainer::Name(s@)),
        JsonValue::Obj(e) => match spec_maintainer_info(e@) {
            Some(i) => Some(SpecMaintainer::Info(i)),
            None => None,
        },
        _ => None,
    }
}

/// A list in which every element is a maintainer.
pub open spec fn spec_maintainer_seq(elems: Seq<JsonValue>) -> Option<Seq<SpecMaintainer>>
    decreases elems.len(),
{
    if elems.len() == 0 {
        Some(Seq::empty())
    } else {
        match (spec_maintainer(elems[0]), spec_maintainer_seq(elems.skip(1))) {
            (Some(m), Some(rest)) => Some(seq![m] + rest),
            _ => None,
        }
    }
}

/// The maintainers field: absent defaults to the empty list; `null` fails.
pub open spec fn spec_maintainers_field(g: Option<JsonValue>) -> Option<Seq<SpecMaintainer>> {
    match g {
        None => Some(Seq::empty()),
        Some(JsonValue::Arr(elems)) => spec_maintainer_seq(elems@),
        Some(_) => None,
    }
}

/// Metadata decoding: every missing field takes its documented default
/// (`available` true, `broken` false, empty collections); a field present
/// but of the wrong JSON type is a hard failure.
pub open spec fn spec_meta(o: Seq<(String, JsonValue)>) -> Option<SpecNixMeta> {
    let av = spec_bool_or(obj_get(o, "available"@), true);
    let br = spec_bool_or(obj_get(o, "broken"@), false);
    let de = spec_opt_str(obj_get(o, "description"@));
    let ld = spec_opt_str(obj_get(o, "longDescription"@));
    let ho = spec_opt_str(obj_get(o, "homepage"@));
    let li = spec_license_field(obj_get(o, "license"@));
    let na = spec_opt_str(obj_get(o, "name"@));
    let ou = spec_str_list_field(obj_get(o, "outputsToInstall"@));
    let pl = spec_platforms_field(obj_get(o, "platforms"@));
    let po = spec_position_field(obj_get(o, "position"@));
    let pr = spec_opt_int(obj_get(o, "priority"@));
    let ma = spec_maintainers_field(obj_get(o, "maintainers"@));
    if av is Some && br is Some && de is Some && ld is Some && ho is Some && li is Some && na
        is Some && ou is Some && pl is Some && po is Some && pr is Some && ma is Some {
        Some(
            SpecNixMeta {
                available: av->Some_0,
                broken: br->Some_0,
                description: de->Some_0,
                long_description: ld->Some_0,
                homepage: ho->Some_0,
                license: li->Some_0,
                name: na->Some_0,
                outputs_to_install: ou->Some_0,
                platforms: pl->Some_0,
                position: po->Some_0,
                priority: pr->Some_0,
                maintainers: ma->Some_0,
            },
        )
    } else {
        None
    }
}

/// One package record: `name`, `pname`, `version` and `system` are
/// required non-empty strings, `meta` a required object, `attr` an
/// optional string that the deserializer itself never fills in.
pub open spec fn spec_nix_info(v: JsonValue) -> Option<SpecNixInfo> {
    match v {
        JsonValue::Obj(o) => {
            let na = spec_req_str(obj_get(o@, "name"@));
            let pn = spec_req_str(obj_get(o@, "pname"@));
            let ve = spec_req_str(obj_get(o@, "version"@));
            let sy = spec_req_str(obj_get(o@, "system"@));
            let me = match obj_get(o@, "meta"@) {
                Some(JsonValue::Obj(m)) => spec_meta(m@),
                _ => None,
            };
            let at = spec_opt_str(obj_get(o@, "attr"@));
            if na is Some && pn is Some && ve is Some && sy is Some && me is Some && at is Some
                && na->Some_0.len() > 0 && pn->Some_0.len() > 0 && ve->Some_0.len() > 0
                && sy->Some_0.len() > 0 {
                Some(
                    SpecNixInfo {
                        name: na->Some_0,
                        pname: pn->Some_0,
                        version: ve->Some_0,
                        system: sy->Some_0,
                        meta: me->Some_0,
                        attr: at->Some_0,
                    },
                )
            } else {
                None
            }
        },
        _ => None,
    }
}

/// The whole query result: an object mapping attribute paths to records.
pub open spec fn spec_all_entries(entries: Seq<(String, JsonValue)>) -> Option<
    Seq<(Seq<char>, SpecNixInfo)>,
>
    decreases entries.len(),
{
    if entries.len() == 0 {
        Some(Seq::empty())
    } else {
        match (spec_nix_info(entries[0].1), spec_all_entries(entries.skip(1))) {
            (Some(i), Some(rest)) => Some(seq![(entries[0].0@, i)] + rest),
            _ => None,
        }
    }
}

pub open spec fn spec_all(v: JsonValue) -> Option<Seq<(Seq<char>, SpecNixInfo)>> {
    match v {
        JsonValue::Obj(entries) => spec_all_entries(entries@),
        _ => None,
    }
}

// ------------------------------------------------------------------
// The decoder's laws.
// ------------------------------------------------------------------
/// The fields of an object as a map from key characters to value: a later
/// duplicate never shadows an earlier one.
pub open spec fn obj_map(o: Seq<(String, JsonValue)>) -> Map<Seq<char>, JsonValue>
    decreases o.len(),
{
    if o.len() == 0 {
        Map::empty()
    } else {
        obj_map(o.skip(1)).insert(o[0].0@, o[0].1)
    }
}

pub proof fn lemma_obj_get_map(o: Seq<(String, JsonValue)>, k: Seq<char>)
    ensures
        obj_get(o, k) == (if obj_map(o).dom().contains(k) {
            Some(obj_map(o)[k])
        } else {
            None
        }),
    decreases o.len(),
{
    if o.len() > 0 {
        lemma_obj_get_map(o.skip(1), k);
    }
}

/// License decoding is a pure function of the object's field set, not of
/// the order in which the fields appear: two objects whose entry lists
/// carry the same map of fields decode to the same license.
pub proof fn lemma_license_decode_ignores_field_order(
    e1: Vec<(String, JsonValue)>,
    e2: Vec<(String, JsonValue)>,
)
    requires
        obj_map(e1@) == obj_map(e2@),
    ensures
        spec_license(JsonValue::Obj(e1)) == spec_license(JsonValue::Obj(e2)),
{
    lemma_obj_get_map(e1@, "fullName"@);
    lemma_obj_get_map(e2@, "fullName"@);
    lemma_obj_get_map(e1@, "shortName"@);
    lemma_obj_get_map(e2@, "shortName"@);
    lemma_obj_get_map(e1@, "spdxId"@);
    lemma_obj_get_map(e2@, "spdxId"@);
    lemma_obj_get_map(e1@, "url"@);
    lemma_obj_get_map(e2@, "url"@);
    lemma_obj_get_map(e1@, "free"@);
    lemma_obj_get_map(e2@, "free"@);
}

/// Flattening the nested platform shape preserves the elements and their
/// encounter order: a list of lists of strings decodes to the same
/// platform sequence as the pre-flattened list holding the concatenation
/// of its inner lists.
pub proof fn lemma_platforms_flatten(outer: Vec<JsonValue>, flat: Vec<JsonValue>)
    requires
        spec_str_seq_nested(outer@) is Some,
        spec_str_seq(flat@) == spec_str_seq_nested(outer@),
    ensures
        spec_platforms_value(JsonValue::Arr(outer)) == spec_platforms_value(JsonValue::Arr(flat)),
        spec_platforms_value(JsonValue::Arr(outer)) == spec_str_seq_nested(outer@),
{
    if outer@.len() == 0 {
        assert(spec_str_seq(outer@) == Some(Seq::<Seq<char>>::empty()));
        assert(spec_str_seq_nested(outer@) == Some(Seq::<Seq<char>>::empty()));
    } else {
        assert(outer@[0] matches JsonValue::Arr(_));
        assert(spec_str_seq(outer@) is None);
    }
}

// ------------------------------------------------------------------
// The executable decoder, verified against the spec functions above.
// ------------------------------------------------------------------
fn get_opt_str(entries: &Vec<(String, JsonValue)>, key: &str) -> (r: Option<Option<String>>)
    ensures
        match r {
            Some(Some(s)) => spec_opt_str(obj_get(entries@, key@)) == Some(Some(s@)),
            Some(None) => spec_opt_str(obj_get(entries@, key@)) == Some(None::<Seq<char>>),
            None => spec_opt_str(obj_get(entries@, key@)) is None,
        },
{
    match json::lookup(entries, key) {
        None => Some(None),
        Some(JsonValue::Null) => Some(None),
        Some(JsonValue::Str(s)) => Some(Some(s.clone())),
        Some(_) => None,
    }
}

fn get_bool_or(entries: &Vec<(String, JsonValue)>, key: &str, d: bool) -> (r: Option<bool>)
    ensures
        match r {
            Some(b) => spec_bool_or(obj_get(entries@, key@), d) == Some(b),
            None => spec_bool_or(obj_get(entries@, key@), d) is None,
        },
{
    match json::lookup(entries, key) {
        None => Some(d),
        Some(JsonValue::Bool(b)) => Some(*b),
        Some(_) => None,
    }
}

fn get_opt_i64(entries: &Vec<(String, JsonValue)>, key: &str) -> (r: Option<Option<i64>>)
    ensures
        match r {
            Some(Some(n)) => spec_opt_int(obj_get(entries@, key@)) == Some(Some(n as int)),
            Some(None) => spec_opt_int(obj_get(entries@, key@)) == Some(None::<int>),
            None => spec_opt_int(obj_get(entries@, key@)) is None,
        },
{
    match json::lookup(entries, key) {
        None => Some(None),
        Some(JsonValue::Null) => Some(None),
        Some(JsonValue::Int(i)) => Some(Some(*i)),
        Some(_) => None,
    }
}

fn get_opt_u64(entries: &Vec<(String, JsonValue)>, key: &str) -> (r: Option<Option<u64>>)
    ensures
        match r {
            Some(Some(n)) => spec_opt_uint(obj_get(entries@, key@)) == Some(Some(n as int)),
            Some(None) => spec_opt_uint(obj_get(entries@, key@)) == Some(None::<int>),
            None => spec_opt_uint(obj_get(entries@, key@)) is None,
        },
{
    match json::lookup(entries, key) {
        None => Some(None),
        Some(JsonValue::Null) => Some(None),
        Some(JsonValue::Int(i)) => if *i >= 0 {
            Some(Some(*i as u64))
        } else {
            None
        },
        Some(_) => None,
    }
}

/// Decodes the full-record license shape.
pub fn decode_full_license(entries: &Vec<(String, JsonValue)>) -> (r: Option<FullLicense>)
    ensures
        match r {
            Some(f) => spec_full_license(entries@) == Some(f@),
            None => spec_full_license(entries@) is None,
        },
{
    let fu = match json::lookup(entries, "fullName") {
        Some(JsonValue::Str(s)) => s.clone(),
        _ => {
            return None;
        },
    };
    let sh = match json::lookup(entries, "shortName") {
        Some(JsonValue::Str(s)) => s.clone(),
        _ => {
            return None;
        },
    };
    let sp = match get_opt_str(entries, "spdxId") {
        Some(x) => x,
        None => {
            return None;
        },
    };
    let u = match get_opt_str(entries, "url") {
        Some(x) => x,
        None => {
            return None;
        },
    };
    let fr = match get_bool_or(entries, "free", true) {
        Some(b) => b,
        None => {
            return None;
        },
    };
    Some(FullLicense { full_name: fu, short_name: sh, spdx_id: sp, url: u, free: fr })
}

fn decode_full_vec_from(elems: &Vec<JsonValue>, i: usize) -> (r: Option<Vec<FullLicense>>)
    requires
        i <= elems@.len(),
    ensures
        match r {
            Some(fs) => spec_full_vec(elems@.skip(i as int)) == Some(
                fs@.map_values(|f: FullLicense| f@),
            ),
            None => spec_full_vec(elems@.skip(i as int)) is None,
        },
    decreases elems@.len() - i,
{
    if i == elems.len() {
        let empty: Vec<FullLicense> = Vec::new();
        proof {
            assert(elems@.skip(i as int) =~= Seq::<JsonValue>::empty());
            assert(empty@.map_values(|f: FullLicense| f@) =~= Seq::<SpecFullLicense>::empty());
        }
        return Some(empty);
    }
    proof {
        assert(elems@.skip(i as int)[0] == elems@[i as int]);
        assert(elems@.skip(i as int).skip(1) =~= elems@.skip(i as int + 1));
    }
    match &elems[i] {
        JsonValue::Obj(e) => {
            match decode_full_license(e) {
                Some(f) => {
                    match decode_full_vec_from(elems, i + 1) {
                        Some(mut rest) => {
                            let ghost old_rest = rest@;
                            rest.insert(0, f);
                            proof {
                                assert(rest@ =~= seq![f] + old_rest);
                                assert(rest@.map_values(|x: FullLicense| x@) =~= seq![f@]
                                    + old_rest.map_values(|x: FullLicense| x@));
                            }
                            Some(rest)
                        },
                        None => None,
                    }
                },
                None => None,
            }
        },
        _ => None,
    }
}

/// License shape resolution, most specific shape first.
pub fn decode_license(v: &JsonValue) -> (r: Option<License>)
    ensures
        match r {
            Some(l) => spec_license(*v) == Some(l@),
            None => spec_license(*v) is None,
        },
{
    match v {
        JsonValue::Str(s) => Some(License::Id(s.clone())),
        JsonValue::Obj(entries) => {
            match decode_full_license(entries) {
                Some(f) => Some(License::Full(f)),
                None => match json::lookup(entries, "fullName") {
                    Some(JsonValue::Str(n)) => Some(
                        License::Named(NamedLicense { full_name: n.clone() }),
                    ),
                    _ => match json::lookup(entries, "url") {
                        Some(JsonValue::Str(u)) => Some(License::Url(UrlLicense { url: u.clone() })),
                        _ => None,
                    },
                },
            }
        },
        JsonValue::Arr(elems) => {
            proof {
                assert(elems@.skip(0) =~= elems@);
            }
            match decode_full_vec_from(elems, 0) {
                Some(fs) => Some(License::FullVec(fs)),
                None => None,
            }
        },
        _ => None,
    }
}

impl NixPath {
    /// Parses a `path:line` source position.
    pub fn parse(s: &str) -> (r: Result<NixPath, NixPathParseErr>)
        ensures
            match r {
                Ok(p) => spec_nix_path(s@) == Some(p@),
                Err(_) => spec_nix_path(s@) is None,
            },
    {
        let len = s.unicode_len();
        // find the first ':'
        let mut p: usize = 0;
        while p < len && s.get_char(p) != ':'
            invariant
                0 <= p <= len,
                len == s@.len(),
                forall|k: int| 0 <= k < p ==> s@[k] != ':',
            decreases len - p,
        {
            p = p + 1;
        }
        if p == len {
            proof {
                if s@.contains(':') {
                    let w = choose|w: int| 0 <= w < s@.len() && s@[w] == ':';
                    assert(false);
                }
            }
            return Err(NixPathParseErr::BadSplit);
        }
        proof {
            lemma_first_at_scan(s@, ':', p as int);
            assert(s@[p as int] == ':');
            assert(s@.contains(':'));
        }
        let path = s.substring_char(0, p).to_owned();
        // the whole suffix after the ':' must be a positive line number
        let lineseg = s.substring_char(p + 1, len);
        proof {
            assert(lineseg@ =~= s@.skip(p + 1));
            assert(s@.subrange(0, p as int) =~= s@.take(p as int));
        }
        match parse_u64(lineseg) {
            Some(n) => if n >= 1 {
                Ok(NixPath { path, line: n })
            } else {
                Err(NixPathParseErr::BadSplit)
            },
            None => Err(NixPathParseErr::BadSplit),
        }
    }
}

fn decode_str_vec_from(elems: &Vec<JsonValue>, i: usize) -> (r: Option<Vec<String>>)
    requires
        i <= elems@.len(),
    ensures
        match r {
            Some(xs) => spec_str_seq(elems@.skip(i as int)) == Some(
                xs@.map_values(|s: String| s@),
            ),
            None => spec_str_seq(elems@.skip(i as int)) is None,
        },
    decreases elems@.len() - i,
{
    if i == elems.len() {
        let empty: Vec<String> = Vec::new();
        proof {
            assert(elems@.skip(i as int) =~= Seq::<JsonValue>::empty());
            assert(empty@.map_values(|s: String| s@) =~= Seq::<Seq<char>>::empty());
        }
        return Some(empty);
    }
    proof {
        assert(elems@.skip(i as int)[0] == elems@[i as int]);
        assert(elems@.skip(i as int).skip(1) =~= elems@.skip(i as int + 1));
    }
    match &elems[i] {
        JsonValue::Str(s) => {
            match decode_str_vec_from(elems, i + 1) {
                Some(mut rest) => {
                    let sc = s.clone();
                    let ghost old_rest = rest@;
                    rest.insert(0, sc);
                    proof {
                        assert(rest@ =~= seq![sc] + old_rest);
                        assert(rest@.map_values(|x: String| x@) =~= seq![s@] + old_rest.map_values(
                            |x: String| x@,
                        ));
                    }
                    Some(rest)
                },
                None => None,
            }
        },
        _ => None,
    }
}

fn decode_nested_from(elems: &Vec<JsonValue>, i: usize) -> (r: Option<Vec<String>>)
    requires
        i <= elems@.len(),
    ensures
        match r {
            Some(xs) => spec_str_seq_nested(elems@.skip(i as int)) == Some(
                xs@.map_values(|s: String| s@),
            ),
            None => spec_str_seq_nested(elems@.skip(i as int)) is None,
        },
    decreases elems@.len() - i,
{
    if i == elems.len() {
        let empty: Vec<String> = Vec::new();
        proof {
            assert(elems@.skip(i as int) =~= Seq::<JsonValue>::empty());
            assert(empty@.map_values(|s: String| s@) =~= Seq::<Seq<char>>::empty());
        }
        return Some(empty);
    }
    proof {
        assert(elems@.skip(i as int)[0] == elems@[i as int]);
        assert(elems@.skip(i as int).skip(1) =~= elems@.skip(i as int + 1));
    }
    match &elems[i] {
        JsonValue::Arr(inner) => {
            proof {
                assert(inner@.skip(0) =~= inner@);
            }
            match decode_str_vec_from(inner, 0) {
                Some(mut head) => {
                    match decode_nested_from(elems, i + 1) {
                        Some(mut rest) => {
                            let ghost old_head = head@;
                            let ghost old_rest = rest@;
                            head.append(&mut rest);
                            proof {
                                assert(head@ =~= old_head + old_rest);
                                assert(head@.map_values(|x: String| x@) =~= old_head.map_values(
                                    |x: String| x@,
                                ) + old_rest.map_values(|x: String| x@));
                            }
                            Some(head)
                        },
                        None => None,
                    }
                },
                None => None,
            }
        },
        _ => None,
    }
}

/// Platform-list resolution: flat, or flattened one level.
pub fn decode_platforms_value(v: &JsonValue) -> (r: Option<Vec<String>>)
    ensures
        match r {
            Some(xs) => spec_platforms_value(*v) == Some(xs@.map_values(|s: String| s@)),
            None => spec_platforms_value(*v) is None,
        },
{
    match v {
        JsonValue::Arr(elems) => {
            proof {
                assert(elems@.skip(0) =~= elems@);
            }
            match decode_str_vec_from(elems, 0) {
                Some(xs) => Some(xs),
                None => decode_nested_from(elems, 0),
            }
        },
        _ => None,
    }
}

fn decode_keys_from(elems: &Vec<JsonValue>, i: usize) -> (r: Option<Vec<Key>>)
    requires
        i <= elems@.len(),
    ensures
        match r {
            Some(ks) => spec_keys(elems@.skip(i as int)) == Some(ks@.map_values(|k: Key| k@)),
            None => spec_keys(elems@.skip(i as int)) is None,
        },
    decreases elems@.len() - i,
{
    if i == elems.len() {
        let empty: Vec<Key> = Vec::new();
        proof {
            assert(elems@.skip(i as int) =~= Seq::<JsonValue>::empty());
            assert(empty@.map_values(|k: Key| k@) =~= Seq::<SpecKey>::empty());
        }
        return Some(empty);
    }
    proof {
        assert(elems@.skip(i as int)[0] == elems@[i as int]);
        assert(elems@.skip(i as int).skip(1) =~= elems@.skip(i as int + 1));
    }
    match &elems[i] {
        JsonValue::Obj(e) => {
            let l = match json::lookup(e, "longkeyid") {
                Some(JsonValue::Str(s)) => s.clone(),
                _ => {
                    return None;
                },
            };
            let f = match json::lookup(e, "fingerprint") {
                Some(JsonValue::Str(s)) => s.clone(),
                _ => {
                    return None;
                },
            };
            match decode_keys_from(elems, i + 1) {
                Some(mut rest) => {
                    let k = Key { longkeyid: l, fingerprint: f };
                    let ghost old_rest = rest@;
                    rest.insert(0, k);
                    proof {
                        assert(rest@ =~= seq![k] + old_rest);
                        assert(rest@.map_values(|x: Key| x@) =~= seq![k@] + old_rest.map_values(
                            |x: Key| x@,
                        ));
                    }
                    Some(rest)
                },
                None => None,
            }
        },
        _ => None,
    }
}

/// Decodes the structured maintainer shape.
pub fn decode_maintainer_info(o: &Vec<(String, JsonValue)>) -> (r: Option<MaintainerInfo>)
    ensures
        match r {
            Some(m) => spec_maintainer_info(o@) == Some(m@),
            None => spec_maintainer_info(o@) is None,
        },
{
    let em = match json::lookup(o, "email") {
        Some(JsonValue::Str(s)) => s.clone(),
        _ => {
            return None;
        },
    };
    let na = match get_opt_str(o, "name") {
        Some(x) => x,
        None => {
            return None;
        },
    };
    let gh = match get_opt_str(o, "github") {
        Some(x) => x,
        None => {
            return None;
        },
    };
    let gi = match get_opt_u64(o, "githubId") {
        Some(x) => x,
        None => {
            return None;
        },
    };
    let ks: Vec<Key> = match json::lookup(o, "keys") {
        None => {
            let empty: Vec<Key> = Vec::new();
            proof {
                assert(empty@.map_values(|k: Key| k@) =~= Seq::<SpecKey>::empty());
            }
            empty
        },
        Some(JsonValue::Arr(elems)) => {
            proof {
                assert(elems@.skip(0) =~= elems@);
            }
            match decode_keys_from(elems, 0) {
                Some(ks) => ks,
                None => {
                    return None;
                },
            }
        },
        Some(_) => {
            return None;
        },
    };
    Some(MaintainerInfo { name: na, email: em, github: gh, github_id: gi, keys: ks })
}

/// Maintainer shape resolution: a bare string, or a structured record.
pub fn decode_maintainer(v: &JsonValue) -> (r: Option<Maintainer>)
    ensures
        match r {
            Some(m) => spec_maintainer(*v) == Some(m@),
            None => spec_maintainer(*v) is None,
        },
{
    match v {
        JsonValue::Str(s) => Some(Maintainer::Name(s.clone())),
        JsonValue::Obj(e) => match decode_maintainer_info(e) {
            Some(i) => Some(Maintainer::Info(i)),
            None => None,
        },
        _ => None,
    }
}

fn decode_maintainers_from(elems: &Vec<JsonValue>, i: usize) -> (r: Option<Vec<Maintainer>>)
    requires
        i <= elems@.len(),
    ensures
        match r {
            Some(ms) => spec_maintainer_seq(elems@.skip(i as int)) == Some(
                ms@.map_values(|m: Maintainer| m@),
            ),
            None => spec_maintainer_seq(elems@.skip(i as int)) is None,
        },
    decreases elems@.len() - i,
{
    if i == elems.len() {
        let empty: Vec<Maintainer> = Vec::new();
        proof {
            assert(elems@.skip(i as int) =~= Seq::<JsonValue>::empty());
            assert(empty@.map_values(|m: Maintainer| m@) =~= Seq::<SpecMaintainer>::empty());
        }
        return Some(empty);
    }
    proof {
        assert(elems@.skip(i as int)[0] == elems@[i as int]);
        assert(elems@.skip(i as int).skip(1) =~= elems@.skip(i as int + 1));
    }
    match decode_maintainer(&elems[i]) {
        Some(m) => {
            match decode_maintainers_from(elems, i + 1) {
                Some(mut rest) => {
                    let ghost old_rest = rest@;
                    rest.insert(0, m);
                    proof {
                        assert(rest@ =~= seq![m] + old_rest);
                        assert(rest@.map_values(|x: Maintainer| x@) =~= seq![m@]
                            + old_rest.map_values(|x: Maintainer| x@));
                    }
                    Some(rest)
                },
                None => None,
            }
        },
        None => None,
    }
}

/// Decodes a metadata object, applying the documented defaults.
pub fn decode_meta(o: &Vec<(String, JsonValue)>) -> (r: Option<NixMeta>)
    ensures
        match r {
            Some(m) => spec_meta(o@) == Some(m@),
            None => spec_meta(o@) is None,
        },
{
    let av = match get_bool_or(o, "available", true) {
        Some(b) => b,
        None => {
            return None;
        },
    };
    let br = match get_bool_or(o, "broken", false) {
        Some(b) => b,
        None => {
            return None;
        },
    };
    let de = match get_opt_str(o, "description") {
        Some(x) => x,
        None => {
            return None;
        },
    };
    let ld = match get_opt_str(o, "longDescription") {
        Some(x) => x,
        None => {
            return None;
        },
    };
    let ho = match get_opt_str(o, "homepage") {
        Some(x) => x,
        None => {
            return None;
        },
    };
    let li: Option<License> = match json::lookup(o, "license") {
        None => None,
        Some(JsonValue::Null) => None,
        Some(v) => match decode_license(v) {
            Some(l) => Some(l),
            None => {
                return None;
            },
        },
    };
    let na = match get_opt_str(o, "name") {
        Some(x) => x,
        None => {
            return None;
        },
    };
    let ou: Vec<String> = match json::lookup(o, "outputsToInstall") {
        None => {
            let empty: Vec<String> = Vec::new();
            proof {
                assert(empty@.map_values(|s: String| s@) =~= Seq::<Seq<char>>::empty());
            }
            empty
        },
        Some(JsonValue::Arr(elems)) => {
            proof {
                assert(elems@.skip(0) =~= elems@);
            }
            match decode_str_vec_from(elems, 0) {
                Some(xs) => xs,
                None => {
                    return None;
                },
            }
        },
        Some(_) => {
            return None;
        },
    };
    let pl: Vec<String> = match json::lookup(o, "platforms") {
        None => {
            let empty: Vec<String> = Vec::new();
            proof {
                assert(empty@.map_values(|s: String| s@) =~= Seq::<Seq<char>>::empty());
            }
            empty
        },
        Some(v) => match decode_platforms_value(v) {
            Some(xs) => xs,
            None => {
                return None;
            },
        },
    };
    let po: Option<NixPath> = match json::lookup(o, "position") {
        None => None,
        Some(JsonValue::Null) => None,
        Some(JsonValue::Str(s)) => match NixPath::parse(s.as_str()) {
            Ok(p) => Some(p),
            Err(_) => {
                return None;
            },
        },
        Some(_) => {
            return None;
        },
    };
    let pr = match get_opt_i64(o, "priority") {
        Some(x) => x,
        None => {
            return None;
        },
    };
    let ma: Vec<Maintainer> = match json::lookup(o, "maintainers") {
        None => {
            let empty: Vec<Maintainer> = Vec::new();
            proof {
                assert(empty@.map_values(|m: Maintainer| m@) =~= Seq::<SpecMaintainer>::empty());
            }
            empty
        },
        Some(JsonValue::Arr(elems)) => {
            proof {
                assert(elems@.skip(0) =~= elems@);
            }
            match decode_maintainers_from(elems, 0) {
                Some(ms) => ms,
                None => {
                    return None;
                },
            }
        },
        Some(_) => {
            return None;
        },
    };
    Some(
        NixMeta {
            available: av,
            broken: br,
            description: de,
            long_description: ld,
            homepage: ho,
            license: li,
            name: na,
            outputs_to_install: ou,
            platforms: pl,
            position: po,
            priority: pr,
            maintainers: ma,
        },
    )
}

/// Decodes one package record; the record must carry non-empty `name`,
/// `pname`, `version` and `system`.
pub fn decode_nix_info(v: &JsonValue) -> (r: Option<NixInfo>)
    ensures
        match r {
            Some(i) => spec_nix_info(*v) == Some(i@) && i@.wf(),
            None => spec_nix_info(*v) is None,
        },
{
    let o = match v {
        JsonValue::Obj(o) => o,
        _ => {
            return None;
        },
    };
    let na = match json::lookup(o, "name") {
        Some(JsonValue::Str(s)) => s.clone(),
        _ => {
            return None;
        },
    };
    let pn = match json::lookup(o, "pname") {
        Some(JsonValue::Str(s)) => s.clone(),
        _ => {
            return None;
        },
    };
    let ve = match json::lookup(o, "version") {
        Some(JsonValue::Str(s)) => s.clone(),
        _ => {
            return None;
        },
    };
    let sy = match json::lookup(o, "system") {
        Some(JsonValue::Str(s)) => s.clone(),
        _ => {
            return None;
        },
    };
    if na.unicode_len() == 0 || pn.unicode_len() == 0 || ve.unicode_len() == 0 || sy.unicode_len()
        == 0 {
        return None;
    }
    let me = match json::lookup(o, "meta") {
        Some(JsonValue::Obj(m)) => match decode_meta(m) {
            Some(m) => m,
            None => {
                return None;
            },
        },
        _ => {
            return None;
        },
    };
    let at = match get_opt_str(o, "attr") {
        Some(x) => x,
        None => {
            return None;
        },
    };
    Some(NixInfo { name: na, pname: pn, version: ve, system: sy, meta: me, attr: at })
}

fn decode_all_from(entries: &Vec<(String, JsonValue)>, i: usize) -> (r: Option<
    Vec<(String, NixInfo)>,
>)
    requires
        i <= entries@.len(),
    ensures
        match r {
            Some(xs) => spec_all_entries(entries@.skip(i as int)) == Some(
                xs@.map_values(|e: (String, NixInfo)| (e.0@, e.1@)),
            ),
            None => spec_all_entries(entries@.skip(i as int)) is None,
        },
    decreases entries@.len() - i,
{
    if i == entries.len() {
        let empty: Vec<(String, NixInfo)> = Vec::new();
        proof {
            assert(entries@.skip(i as int) =~= Seq::<(String, JsonValue)>::empty());
            assert(empty@.map_values(|e: (String, NixInfo)| (e.0@, e.1@))
                =~= Seq::<(Seq<char>, SpecNixInfo)>::empty());
        }
        return Some(empty);
    }
    proof {
        assert(entries@.skip(i as int)[0] == entries@[i as int]);
        assert(entries@.skip(i as int).skip(1) =~= entries@.skip(i as int + 1));
    }
    match decode_nix_info(&entries[i].1) {
        Some(info) => {
            match decode_all_from(entries, i + 1) {
                Some(mut rest) => {
                    let pair = (entries[i].0.clone(), info);
                    let ghost old_rest = rest@;
                    rest.insert(0, pair);
                    proof {
                        assert(rest@ =~= seq![pair] + old_rest);
                        assert(rest@.map_values(|e: (String, NixInfo)| (e.0@, e.1@)) =~= seq![
                            (pair.0@, pair.1@),
                        ] + old_rest.map_values(|e: (String, NixInfo)| (e.0@, e.1@)));
                    }
                    Some(rest)
                },
                None => None,
            }
        },
        None => None,
    }
}

/// Decodes the JSON text of a bulk or single-attribute query into records
/// keyed by attribute path, or a structured decode failure carrying the
/// violation description and the original text.
pub fn decode_all(text: &str) -> (r: Result<AllNixInfo, DecodeError>)
    ensures
        r matches Ok(a) ==> (parsed_json(text@) matches Some(v) && spec_all(v) == Some(a@)),
        r is Err ==> (parsed_json(text@) is None || spec_all(parsed_json(text@)->Some_0) is None),
        r matches Err(e) ==> e.text@ == text@,
{
    match parse_json(text) {
        Err(description) => Err(DecodeError { description, text: text.to_owned() }),
        Ok(v) => {
            match &v {
                JsonValue::Obj(entries) => {
                    proof {
                        assert(entries@.skip(0) =~= entries@);
                    }
                    match decode_all_from(entries, 0) {
                        Some(attrs) => Ok(AllNixInfo { attrs }),
                        None => Err(
                            DecodeError {
                                description:
                                    "package metadata did not match an expected shape".to_owned(),
                                text: text.to_owned(),
                            },
                        ),
                    }
                },
                _ => Err(
                    DecodeError {
                        description: "expected an object keyed by attribute path".to_owned(),
                        text: text.to_owned(),
                    },
                ),
            }
        },
    }
}

impl AllNixInfo {
    /// The record stored under the attribute path `key`, if any.
    pub fn get(&self, key: &str) -> (r: Option<&NixInfo>)
        ensures
            match r {
                Some(info) => exists|j: int|
                    0 <= j < self@.len() && #[trigger] self@[j].0 == key@ && self@[j].1 == info@,
                None => forall|j: int| 0 <= j < self@.len() ==> #[trigger] self@[j].0 != key@,
            },
    {
        let n = self.attrs.len();
        let mut i: usize = 0;
        while i < n
            invariant
                0 <= i <= n,
                n == self.attrs@.len(),
                self@.len() == self.attrs@.len(),
                forall|j: int| 0 <= j < i ==> #[trigger] self@[j].0 != key@,
            decreases n - i,
        {
            proof {
                assert(self@[i as int] == (self.attrs@[i as int].0@, self.attrs@[i as int].1@));
            }
            if crate::text::str_eq(self.attrs[i].0.as_str(), key) {
                proof {
                    assert(self@[i as int].0 == key@ && self@[i as int].1 == self.attrs@[
                        i as int
                    ].1@);
                }
                return Some(&self.attrs[i].1);
            }
            i = i + 1;
        }
        None
    }
}

/// Borrows a record for rendering.
pub struct ConsoleFormatInfo<'a>(pub &'a NixInfo);

impl NixInfo {
    /// A rendering handle for this record.
    pub fn console_fmt<'a>(&'a self) -> (r: ConsoleFormatInfo<'a>)
        ensures
            r.0 == self,
    {
        ConsoleFormatInfo(self)
    }
}

/// A failed single-attribute query.
#[derive(Debug, PartialEq, Clone)]
pub enum NixQueryError {
    Command(CommandError),
    /// Output was well-formed but empty.
    Empty,
}

/// The record `i` with the attribute path `a` attached.
pub open spec fn spec_with_attr(i: SpecNixInfo, a: Seq<char>) -> SpecNixInfo {
    SpecNixInfo { attr: Some(a), ..i }
}

/// Decodes the JSON text of a single-attribute query, which must hold
/// exactly one record; returns that record with its attribute path
/// attached.  Zero records is the distinct `Empty` failure; text that does
/// not decode is a `Command` decode failure carrying the original text.
pub fn decode_query(text: &str) -> (r: Result<NixInfo, NixQueryError>)
    ensures
        (parsed_json(text@) is Some && spec_all(parsed_json(text@)->Some_0) is Some) ==> ({
            let s = spec_all(parsed_json(text@)->Some_0)->Some_0;
            if s.len() == 0 {
                r == Err::<NixInfo, NixQueryError>(NixQueryError::Empty)
            } else {
                r matches Ok(i) && i@ == spec_with_attr(s[0].1, s[0].0)
            }
        }),
        (parsed_json(text@) is None || spec_all(parsed_json(text@)->Some_0) is None) ==> (
        r matches Err(e) && e matches NixQueryError::Command(c) && c matches CommandError::De(d)
            && d.text@ == text@),
{
    match decode_all(text) {
        Err(d) => Err(NixQueryError::Command(CommandError::De(d))),
        Ok(a) => {
            let mut attrs = a.attrs;
            if attrs.len() == 0 {
                proof {
                    let s = spec_all(parsed_json(text@)->Some_0)->Some_0;
                    assert(s =~= Seq::<(Seq<char>, SpecNixInfo)>::empty());
                }
                Err(NixQueryError::Empty)
            } else {
                let (k, info) = attrs.remove(0);
                Ok(NixInfo { attr: Some(k), ..info })
            }
        },
    }
}

} // verus!
