//! The persisted settings collaborator: one JSON document per scope, with
//! one recognized key holding an array of model patterns.
//!
//! Reads tolerate a missing file, a missing key, or a key of the wrong
//! shape as "not defined"; an explicit null means defined with no scoping.
//! Writes merge non-destructively into the existing document: every other
//! member is kept, only the one key is replaced.

use vstd::prelude::*;

use crate::handler::{EventHandler, sp_trim};
use crate::json::{Json, JsonV, jget, jview_seq, jview_pairs, lemma_jview_seq,
    lemma_jview_pairs, obj_set, sp_parse, sp_ser};

verus! {

broadcast use vstd::seq::group_seq_axioms;

pub open spec fn key_enabled_models() -> Seq<u8> {
    // enabledModels
    seq![0x65, 0x6e, 0x61, 0x62, 0x6c, 0x65, 0x64, 0x4d, 0x6f, 0x64, 0x65, 0x6c, 0x73]
}

pub open spec fn src_project() -> Seq<u8> {
    // project
    seq![0x70, 0x72, 0x6f, 0x6a, 0x65, 0x63, 0x74]
}

pub open spec fn src_global() -> Seq<u8> {
    // global
    seq![0x67, 0x6c, 0x6f, 0x62, 0x61, 0x6c]
}

pub open spec fn src_none() -> Seq<u8> {
    // none
    seq![0x6e, 0x6f, 0x6e, 0x65]
}

/// Effective enabledModels patterns, whether the key was defined, and where
/// the answer came from.
pub struct EnabledModelsResponse {
    /// The patterns as stored; empty means no scoping (all models enabled).
    pub patterns: Vec<Vec<u8>>,
    /// Whether the key exists in the selected settings file.
    pub defined: bool,
    /// Where the effective setting came from: project, global, or none.
    pub source: Vec<u8>,
}

/// The string elements of the pattern array, trimmed, empties dropped.
pub open spec fn sp_patterns(items: Seq<JsonV>) -> Seq<Seq<u8>>
    decreases items.len(),
{
    if items.len() == 0 {
        Seq::empty()
    } else {
        let rest = sp_patterns(items.drop_last());
        match items.last() {
            JsonV::Str(t) => if sp_trim(t).len() > 0 {
                rest.push(sp_trim(t))
            } else {
                rest
            },
            _ => rest,
        }
    }
}

/// What one settings document says: whether the key is defined, and the
/// patterns. A missing or unparsable document, a non-object root, a missing
/// key, or a key of the wrong shape reads as not defined; null reads as
/// defined with no scoping.
pub open spec fn sp_read_enabled(content: Option<Seq<u8>>) -> (bool, Seq<Seq<u8>>) {
    match content {
        None => (false, Seq::empty()),
        Some(bytes) => match sp_parse(bytes) {
            Some(root) => if root is Obj {
                match jget(root, key_enabled_models()) {
                    None => (false, Seq::empty()),
                    Some(JsonV::Null) => (true, Seq::empty()),
                    Some(JsonV::Arr(items)) => (true, sp_patterns(items)),
                    Some(_) => (false, Seq::empty()),
                }
            } else {
                (false, Seq::empty())
            },
            None => (false, Seq::empty()),
        },
    }
}

/// Reads the patterns out of one settings document.
pub fn read_enabled_models_from_settings(content: Option<&[u8]>) -> (r: (bool, Vec<Vec<u8>>))
    ensures
        (r.0, r.1.deep_view()) == sp_read_enabled(
            match content {
                Some(c) => Some(c@),
                None => None,
            },
        ),
{
    let bytes = match content {
        Some(c) => c,
        None => {
            let empty: Vec<Vec<u8>> = Vec::new();
            assert(empty.deep_view() =~= Seq::<Seq<u8>>::empty());
            return (false, empty);
        },
    };
    let root = match crate::json::parse_json(bytes) {
        Some(v) => v,
        None => {
            let empty: Vec<Vec<u8>> = Vec::new();
            assert(empty.deep_view() =~= Seq::<Seq<u8>>::empty());
            return (false, empty);
        },
    };
    let kem = vec![
        0x65u8, 0x6e, 0x61, 0x62, 0x6c, 0x65, 0x64, 0x4d, 0x6f, 0x64, 0x65, 0x6c, 0x73,
    ];
    assert(kem@ =~= key_enabled_models());
    if !matches!(root, Json::Obj(_)) {
        let empty: Vec<Vec<u8>> = Vec::new();
        assert(empty.deep_view() =~= Seq::<Seq<u8>>::empty());
        return (false, empty);
    }
    match root.get(kem.as_slice()) {
        None => {
            let empty: Vec<Vec<u8>> = Vec::new();
            assert(empty.deep_view() =~= Seq::<Seq<u8>>::empty());
            (false, empty)
        },
        Some(Json::Null) => {
            let empty: Vec<Vec<u8>> = Vec::new();
            assert(empty.deep_view() =~= Seq::<Seq<u8>>::empty());
            (true, empty)
        },
        Some(Json::Arr(items)) => {
            proof {
                lemma_jview_seq(items@);
            }
            let ghost iv = jview_seq(items@);
            let mut out: Vec<Vec<u8>> = Vec::new();
            let mut i: usize = 0;
            assert(out.deep_view() =~= sp_patterns(iv.take(0)) ) by {
                assert(iv.take(0) =~= Seq::<JsonV>::empty());
            }
            while i < items.len()
                invariant
                    i <= items@.len(),
                    iv.len() == items@.len(),
                    forall|k: int| 0 <= k < items@.len()
                        ==> #[trigger] iv[k] == crate::json::jview(items@[k]),
                    out.deep_view() == sp_patterns(iv.take(i as int)),
                decreases items@.len() - i,
            {
                proof {
                    assert(iv.take(i + 1).drop_last() =~= iv.take(i as int));
                    assert(iv.take(i + 1).last() == iv[i as int]);
                }
                if let Json::Str(t) = &items[i] {
                    let trimmed = EventHandler::trim(t.as_slice());
                    if trimmed.len() > 0 {
                        let ghost pre = out.deep_view();
                        out.push(trimmed);
                        assert(out.deep_view() =~~= pre.push(sp_trim(t@)));
                    }
                }
                i += 1;
            }
            assert(iv.take(items@.len() as int) =~= iv);
            (true, out)
        },
        Some(_) => {
            let empty: Vec<Vec<u8>> = Vec::new();
            assert(empty.deep_view() =~= Seq::<Seq<u8>>::empty());
            (false, empty)
        },
    }
}

/// The document that results from writing the patterns into an existing
/// settings document: the existing members survive, the one key is
/// replaced (or added), and a missing or damaged document starts fresh.
pub open spec fn sp_write_enabled(existing: Option<Seq<u8>>, patterns: Seq<Seq<u8>>) -> Seq<u8> {
    let root = match existing {
        Some(bytes) => match sp_parse(bytes) {
            Some(v) => if v is Obj {
                v
            } else {
                JsonV::Obj(Seq::empty())
            },
            None => JsonV::Obj(Seq::empty()),
        },
        None => JsonV::Obj(Seq::empty()),
    };
    let arr = JsonV::Arr(patterns.map_values(|p: Seq<u8>| JsonV::Str(p)));
    sp_ser(JsonV::Obj(obj_set(root->Obj_0, key_enabled_models(), arr))) + seq![0x0au8]
}

/// Merges the patterns into a settings document and returns the new file
/// contents, newline terminated.
pub fn write_enabled_models_to_settings(existing: Option<&[u8]>, patterns: &Vec<Vec<u8>>) -> (r:
    Vec<u8>)
    ensures
        r@ == sp_write_enabled(
            match existing {
                Some(c) => Some(c@),
                None => None,
            },
            patterns.deep_view(),
        ),
{
    let root = match existing {
        Some(bytes) => match crate::json::parse_json(bytes) {
            Some(v) => if matches!(v, Json::Obj(_)) {
                v
            } else {
                empty_root()
            },
            None => empty_root(),
        },
        None => empty_root(),
    };
    let mut arr: Vec<Json> = Vec::new();
    let mut i: usize = 0;
    proof {
        lemma_jview_seq(arr@);
        assert(jview_seq(arr@) =~= patterns.deep_view().take(0).map_values(
            |p: Seq<u8>| JsonV::Str(p),
        ));
    }
    while i < patterns.len()
        invariant
            i <= patterns@.len(),
            patterns.deep_view().len() == patterns@.len(),
            forall|k: int| 0 <= k < patterns@.len()
                ==> patterns.deep_view()[k] == #[trigger] patterns@[k]@,
            jview_seq(arr@) == patterns.deep_view().take(i as int).map_values(
                |p: Seq<u8>| JsonV::Str(p),
            ),
        decreases patterns@.len() - i,
    {
        let s = EventHandler::clone_bytes(&patterns[i]);
        let ghost pre = arr@;
        arr.push(Json::Str(s));
        proof {
            assert(arr@.drop_last() =~= pre);
            crate::json::lemma_jview_seq_push(pre, arr@.last());
            assert(pre.push(arr@.last()) =~= arr@);
            assert(patterns.deep_view().take(i + 1).map_values(|p: Seq<u8>| JsonV::Str(p))
                =~= patterns.deep_view().take(i as int).map_values(
                |p: Seq<u8>| JsonV::Str(p),
            ).push(JsonV::Str(patterns.deep_view()[i as int])));
        }
        i += 1;
    }
    assert(patterns.deep_view().take(patterns@.len() as int) =~= patterns.deep_view());
    let kem = vec![
        0x65u8, 0x6e, 0x61, 0x62, 0x6c, 0x65, 0x64, 0x4d, 0x6f, 0x64, 0x65, 0x6c, 0x73,
    ];
    assert(kem@ =~= key_enabled_models());
    let merged = root.with_key(kem.as_slice(), Json::Arr(arr));
    let mut out = crate::json::to_bytes(&merged);
    let ghost pre = out@;
    out.push(0x0a);
    assert(out@ =~= pre + seq![0x0au8]);
    out
}

fn empty_root() -> (r: Json)
    ensures
        r@ == JsonV::Obj(Seq::<(Seq<u8>, JsonV)>::empty()),
{
    let pairs: Vec<(Vec<u8>, Json)> = Vec::new();
    proof {
        lemma_jview_pairs(pairs@);
        assert(jview_pairs(pairs@) =~= Seq::<(Seq<u8>, JsonV)>::empty());
    }
    Json::Obj(pairs)
}

/// Which settings file a write goes to.
pub enum SettingsScope {
    Auto,
    Project,
    Global,
}

/// The two settings documents as the store sees them; `None` is a missing
/// file. The surrounding program reads the real files into this shape and
/// writes a changed document back.
pub struct SettingsStore {
    pub project: Option<Vec<u8>>,
    pub global: Option<Vec<u8>>,
}

pub open spec fn opt_view(o: Option<Vec<u8>>) -> Option<Seq<u8>> {
    match o {
        Some(v) => Some(v@),
        None => None,
    }
}

impl SettingsStore {
    /// The effective patterns: project settings override global settings;
    /// neither defined reads as unrestricted from nowhere.
    pub fn get_enabled_models(&self) -> (r: EnabledModelsResponse)
        ensures
            ({
                let p = sp_read_enabled(opt_view(self.project));
                let g = sp_read_enabled(opt_view(self.global));
                if p.0 {
                    r.defined && r.patterns.deep_view() == p.1 && r.source@ == src_project()
                } else if g.0 {
                    r.defined && r.patterns.deep_view() == g.1 && r.source@ == src_global()
                } else {
                    !r.defined && r.patterns.deep_view() == Seq::<Seq<u8>>::empty() && r.source@
                        == src_none()
                }
            }),
    {
        let (pdef, ppat) = read_enabled_models_from_settings(
            match &self.project {
                Some(c) => Some(c.as_slice()),
                None => None,
            },
        );
        if pdef {
            let source = vec![0x70u8, 0x72, 0x6f, 0x6a, 0x65, 0x63, 0x74];
            assert(source@ =~= src_project());
            return EnabledModelsResponse { patterns: ppat, defined: true, source };
        }
        let (gdef, gpat) = read_enabled_models_from_settings(
            match &self.global {
                Some(c) => Some(c.as_slice()),
                None => None,
            },
        );
        if gdef {
            let source = vec![0x67u8, 0x6c, 0x6f, 0x62, 0x61, 0x6c];
            assert(source@ =~= src_global());
            return EnabledModelsResponse { patterns: gpat, defined: true, source };
        }
        let source = vec![0x6eu8, 0x6f, 0x6e, 0x65];
        assert(source@ =~= src_none());
        let empty: Vec<Vec<u8>> = Vec::new();
        assert(empty.deep_view() =~= Seq::<Seq<u8>>::empty());
        EnabledModelsResponse { patterns: empty, defined: false, source }
    }

    /// Writes the patterns into the scoped settings document, merging
    /// non-destructively; `Auto` prefers an existing project file and
    /// falls back to the global one.
    pub fn set_enabled_models(&mut self, patterns: &Vec<Vec<u8>>, scope: SettingsScope)
        ensures
            ({
                let to_project = match scope {
                    SettingsScope::Project => true,
                    SettingsScope::Global => false,
                    SettingsScope::Auto => old(self).project is Some,
                };
                if to_project {
                    opt_view(final(self).project) == Some(
                        sp_write_enabled(opt_view(old(self).project), patterns.deep_view()),
                    ) && final(self).global == old(self).global
                } else {
                    opt_view(final(self).global) == Some(
                        sp_write_enabled(opt_view(old(self).global), patterns.deep_view()),
                    ) && final(self).project == old(self).project
                }
            }),
    {
        let to_project = match scope {
            SettingsScope::Project => true,
            SettingsScope::Global => false,
            SettingsScope::Auto => self.project.is_some(),
        };
        if to_project {
            let content = write_enabled_models_to_settings(
                match &self.project {
                    Some(c) => Some(c.as_slice()),
                    None => None,
                },
                patterns,
            );
            self.project = Some(content);
        } else {
            let content = write_enabled_models_to_settings(
                match &self.global {
                    Some(c) => Some(c.as_slice()),
                    None => None,
                },
                patterns,
            );
            self.global = Some(content);
        }
    }
}


/// The recognized scope words; anything else is refused with the exact
/// complaint, and nothing is written.
pub fn parse_scope(scope: Option<&[u8]>) -> (r: Result<SettingsScope, Vec<u8>>)
    ensures
        match scope {
            None => r == Ok::<SettingsScope, Vec<u8>>(SettingsScope::Auto),
            Some(s) => {
                // auto / project / global
                if s@ == seq![0x61u8, 0x75, 0x74, 0x6f] {
                    r == Ok::<SettingsScope, Vec<u8>>(SettingsScope::Auto)
                } else if s@ == src_project() {
                    r == Ok::<SettingsScope, Vec<u8>>(SettingsScope::Project)
                } else if s@ == src_global() {
                    r == Ok::<SettingsScope, Vec<u8>>(SettingsScope::Global)
                } else {
                    r matches Err(msg) && msg@ == seq![
                        // Invalid scope '
                        0x49u8, 0x6e, 0x76, 0x61, 0x6c, 0x69, 0x64, 0x20, 0x73, 0x63, 0x6f,
                        0x70, 0x65, 0x20, 0x27,
                    ] + s@ + seq![
                        // '. Expected 'auto', 'project', or 'global'
                        0x27u8, 0x2e, 0x20, 0x45, 0x78, 0x70, 0x65, 0x63, 0x74, 0x65, 0x64,
                        0x20, 0x27, 0x61, 0x75, 0x74, 0x6f, 0x27, 0x2c, 0x20, 0x27, 0x70,
                        0x72, 0x6f, 0x6a, 0x65, 0x63, 0x74, 0x27, 0x2c, 0x20, 0x6f, 0x72,
                        0x20, 0x27, 0x67, 0x6c, 0x6f, 0x62, 0x61, 0x6c, 0x27,
                    ]
                }
            },
        },
{
    let s = match scope {
        None => {
            return Ok(SettingsScope::Auto);
        },
        Some(s) => s,
    };
    let auto = vec![0x61u8, 0x75, 0x74, 0x6f];
    let project = vec![0x70u8, 0x72, 0x6f, 0x6a, 0x65, 0x63, 0x74];
    assert(project@ =~= src_project());
    let global = vec![0x67u8, 0x6c, 0x6f, 0x62, 0x61, 0x6c];
    assert(global@ =~= src_global());
    if crate::json::bytes_eq(s, auto.as_slice()) {
        Ok(SettingsScope::Auto)
    } else if crate::json::bytes_eq(s, project.as_slice()) {
        Ok(SettingsScope::Project)
    } else if crate::json::bytes_eq(s, global.as_slice()) {
        Ok(SettingsScope::Global)
    } else {
        let mut msg = vec![
            0x49u8, 0x6e, 0x76, 0x61, 0x6c, 0x69, 0x64, 0x20, 0x73, 0x63, 0x6f, 0x70, 0x65,
            0x20, 0x27,
        ];
        crate::handler::append_bytes(&mut msg, s);
        let tail = vec![
            0x27u8, 0x2e, 0x20, 0x45, 0x78, 0x70, 0x65, 0x63, 0x74, 0x65, 0x64, 0x20, 0x27,
            0x61, 0x75, 0x74, 0x6f, 0x27, 0x2c, 0x20, 0x27, 0x70, 0x72, 0x6f, 0x6a, 0x65,
            0x63, 0x74, 0x27, 0x2c, 0x20, 0x6f, 0x72, 0x20, 0x27, 0x67, 0x6c, 0x6f, 0x62,
            0x61, 0x6c, 0x27,
        ];
        crate::handler::append_bytes(&mut msg, tail.as_slice());
        Err(msg)
    }
}

/// The pattern array reads back as written when each pattern is already
/// trimmed and nonempty (the reader trims and drops empties).
proof fn lemma_patterns_read_back(patterns: Seq<Seq<u8>>)
    requires
        forall|k: int| 0 <= k < patterns.len() ==> sp_trim(#[trigger] patterns[k]) == patterns[k]
            && patterns[k].len() > 0,
    ensures
        sp_patterns(patterns.map_values(|p: Seq<u8>| JsonV::Str(p))) == patterns,
    decreases patterns.len(),
{
    let items = patterns.map_values(|p: Seq<u8>| JsonV::Str(p));
    if patterns.len() == 0 {
        assert(sp_patterns(items) =~= patterns);
    } else {
        lemma_patterns_read_back(patterns.drop_last());
        assert(items.drop_last() =~= patterns.drop_last().map_values(
            |p: Seq<u8>| JsonV::Str(p),
        ));
        assert(items.last() == JsonV::Str(patterns.last()));
        assert(sp_patterns(items) =~= patterns);
    }
}

/// Set-then-get: writing a pattern list into an absent settings document
/// and reading the written document back yields exactly that list, defined,
/// for every list whose patterns are trimmed and nonempty. Together with
/// `set_enabled_models` and `get_enabled_models`, this settles the write
/// path of the project scope: after a project write, the project answer
/// wins with the written patterns.
pub proof fn lemma_set_then_get(patterns: Seq<Seq<u8>>)
    requires
        forall|k: int| 0 <= k < patterns.len() ==> sp_trim(#[trigger] patterns[k]) == patterns[k]
            && patterns[k].len() > 0,
    ensures
        sp_read_enabled(Some(sp_write_enabled(None, patterns))) == (true, patterns),
{
    let arr = JsonV::Arr(patterns.map_values(|p: Seq<u8>| JsonV::Str(p)));
    let pairs = obj_set(Seq::<(Seq<u8>, JsonV)>::empty(), key_enabled_models(), arr);
    let doc = JsonV::Obj(pairs);
    assert(pairs =~= seq![(key_enabled_models(), arr)]);
    assert(crate::roundtrip::wf_json(doc)) by {
        let items = patterns.map_values(|p: Seq<u8>| JsonV::Str(p));
        assert(forall|k: int| 0 <= k < items.len() ==> crate::roundtrip::wf_json(
            #[trigger] items[k],
        ));
        assert(forall|k: int| 0 <= k < pairs.len() ==> crate::roundtrip::wf_json(
            #[trigger] pairs[k].1,
        ));
    }
    crate::roundtrip::lemma_wire_round_trip_line(doc);
    assert(crate::json::obj_get(pairs, key_enabled_models()) == Some(arr));
    lemma_patterns_read_back(patterns);
    assert(sp_read_enabled(Some(sp_write_enabled(None, patterns))) == (true, patterns));
}

} // verus!
