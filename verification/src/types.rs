//! Wire types: outbound commands and inbound responses and session events.
//!
//! A command is created per request, immutable, and serialized once; fields
//! that are absent are omitted from the wire form altogether. Inbound units
//! are decoded strictly: a unit missing a required field, or carrying one of
//! the wrong shape, decodes to nothing and is dropped by the router.

use vstd::prelude::*;

use crate::json::{Json, JsonV, jget, jview_pairs, lemma_jview_pairs, obj_get};

verus! {

broadcast use vstd::seq::group_seq_axioms;

/// An inline image handed to the worker with a prompt.
pub struct RpcImageAttachment {
    /// Attachment discriminator on the wire (the `type` key).
    pub kind: Vec<u8>,
    /// Base64 of the image bytes.
    pub data: Vec<u8>,
    pub mime_type: Vec<u8>,
}

/// Mathematical model of an attachment.
pub struct ImageV {
    pub kind: Seq<u8>,
    pub data: Seq<u8>,
    pub mime_type: Seq<u8>,
}

impl View for RpcImageAttachment {
    type V = ImageV;

    open spec fn view(&self) -> ImageV {
        ImageV { kind: self.kind@, data: self.data@, mime_type: self.mime_type@ }
    }
}

impl DeepView for RpcImageAttachment {
    type V = ImageV;

    open spec fn deep_view(&self) -> ImageV {
        self.view()
    }
}

/// An outbound command. Identity is the `id` when present; a command
/// without one is fire-and-forget.
pub struct RpcCommand {
    pub id: Option<Vec<u8>>,
    /// The command verb (the `type` key on the wire).
    pub kind: Vec<u8>,
    pub session_id: Option<Vec<u8>>,
    pub cwd: Option<Vec<u8>>,
    pub message: Option<Vec<u8>>,
    pub provider: Option<Vec<u8>>,
    pub model_id: Option<Vec<u8>>,
    pub streaming_behavior: Option<Vec<u8>>,
    pub session_file: Option<Vec<u8>>,
    pub level: Option<Vec<u8>>,
    pub images: Option<Vec<RpcImageAttachment>>,
}

/// Mathematical model of a command.
pub struct CmdV {
    pub id: Option<Seq<u8>>,
    pub kind: Seq<u8>,
    pub session_id: Option<Seq<u8>>,
    pub cwd: Option<Seq<u8>>,
    pub message: Option<Seq<u8>>,
    pub provider: Option<Seq<u8>>,
    pub model_id: Option<Seq<u8>>,
    pub streaming_behavior: Option<Seq<u8>>,
    pub session_file: Option<Seq<u8>>,
    pub level: Option<Seq<u8>>,
    pub images: Option<Seq<ImageV>>,
}

pub open spec fn opt_bytes(o: Option<Vec<u8>>) -> Option<Seq<u8>> {
    match o {
        Some(v) => Some(v@),
        None => None,
    }
}

impl View for RpcCommand {
    type V = CmdV;

    open spec fn view(&self) -> CmdV {
        CmdV {
            id: opt_bytes(self.id),
            kind: self.kind@,
            session_id: opt_bytes(self.session_id),
            cwd: opt_bytes(self.cwd),
            message: opt_bytes(self.message),
            provider: opt_bytes(self.provider),
            model_id: opt_bytes(self.model_id),
            streaming_behavior: opt_bytes(self.streaming_behavior),
            session_file: opt_bytes(self.session_file),
            level: opt_bytes(self.level),
            images: match self.images {
                Some(v) => Some(v.deep_view()),
                None => None,
            },
        }
    }
}

// The wire keys.
pub open spec fn key_id() -> Seq<u8> {
    seq![0x69, 0x64]  // id
}

pub open spec fn key_type() -> Seq<u8> {
    seq![0x74, 0x79, 0x70, 0x65]  // type
}

pub open spec fn key_session_id() -> Seq<u8> {
    seq![0x73, 0x65, 0x73, 0x73, 0x69, 0x6f, 0x6e, 0x49, 0x64]  // sessionId
}

pub open spec fn key_cwd() -> Seq<u8> {
    seq![0x63, 0x77, 0x64]  // cwd
}

pub open spec fn key_message() -> Seq<u8> {
    seq![0x6d, 0x65, 0x73, 0x73, 0x61, 0x67, 0x65]  // message
}

pub open spec fn key_provider() -> Seq<u8> {
    seq![0x70, 0x72, 0x6f, 0x76, 0x69, 0x64, 0x65, 0x72]  // provider
}

pub open spec fn key_model_id() -> Seq<u8> {
    seq![0x6d, 0x6f, 0x64, 0x65, 0x6c, 0x49, 0x64]  // modelId
}

pub open spec fn key_streaming_behavior() -> Seq<u8> {
    seq![
        0x73, 0x74, 0x72, 0x65, 0x61, 0x6d, 0x69, 0x6e, 0x67, 0x42, 0x65, 0x68, 0x61, 0x76,
        0x69, 0x6f, 0x72,
    ]  // streamingBehavior
}

pub open spec fn key_session_file() -> Seq<u8> {
    seq![0x73, 0x65, 0x73, 0x73, 0x69, 0x6f, 0x6e, 0x46, 0x69, 0x6c, 0x65]  // sessionFile
}

pub open spec fn key_level() -> Seq<u8> {
    seq![0x6c, 0x65, 0x76, 0x65, 0x6c]  // level
}

pub open spec fn key_images() -> Seq<u8> {
    seq![0x69, 0x6d, 0x61, 0x67, 0x65, 0x73]  // images
}

pub open spec fn key_data() -> Seq<u8> {
    seq![0x64, 0x61, 0x74, 0x61]  // data
}

pub open spec fn key_mime_type() -> Seq<u8> {
    seq![0x6d, 0x69, 0x6d, 0x65, 0x54, 0x79, 0x70, 0x65]  // mimeType
}

pub open spec fn key_command() -> Seq<u8> {
    seq![0x63, 0x6f, 0x6d, 0x6d, 0x61, 0x6e, 0x64]  // command
}

pub open spec fn key_success() -> Seq<u8> {
    seq![0x73, 0x75, 0x63, 0x63, 0x65, 0x73, 0x73]  // success
}

pub open spec fn key_error() -> Seq<u8> {
    seq![0x65, 0x72, 0x72, 0x6f, 0x72]  // error
}

pub open spec fn key_event() -> Seq<u8> {
    seq![0x65, 0x76, 0x65, 0x6e, 0x74]  // event
}

/// One attachment as a JSON object.
pub open spec fn image_json(a: ImageV) -> JsonV {
    JsonV::Obj(
        seq![
            (key_type(), JsonV::Str(a.kind)),
            (key_data(), JsonV::Str(a.data)),
            (key_mime_type(), JsonV::Str(a.mime_type)),
        ],
    )
}

pub open spec fn images_json(imgs: Seq<ImageV>) -> Seq<JsonV> {
    imgs.map_values(|a: ImageV| image_json(a))
}

/// A command as a JSON object: every populated field appears under its wire
/// key, in a fixed order; an absent field appears nowhere.
pub open spec fn cmd_pairs(c: CmdV) -> Seq<(Seq<u8>, JsonV)> {
    let p = Seq::<(Seq<u8>, JsonV)>::empty();
    let p = if c.id is Some {
        p.push((key_id(), JsonV::Str(c.id->0)))
    } else {
        p
    };
    let p = p.push((key_type(), JsonV::Str(c.kind)));
    let p = if c.session_id is Some {
        p.push((key_session_id(), JsonV::Str(c.session_id->0)))
    } else {
        p
    };
    let p = if c.cwd is Some {
        p.push((key_cwd(), JsonV::Str(c.cwd->0)))
    } else {
        p
    };
    let p = if c.message is Some {
        p.push((key_message(), JsonV::Str(c.message->0)))
    } else {
        p
    };
    let p = if c.provider is Some {
        p.push((key_provider(), JsonV::Str(c.provider->0)))
    } else {
        p
    };
    let p = if c.model_id is Some {
        p.push((key_model_id(), JsonV::Str(c.model_id->0)))
    } else {
        p
    };
    let p = if c.streaming_behavior is Some {
        p.push((key_streaming_behavior(), JsonV::Str(c.streaming_behavior->0)))
    } else {
        p
    };
    let p = if c.session_file is Some {
        p.push((key_session_file(), JsonV::Str(c.session_file->0)))
    } else {
        p
    };
    let p = if c.level is Some {
        p.push((key_level(), JsonV::Str(c.level->0)))
    } else {
        p
    };
    let p = if c.images is Some {
        p.push((key_images(), JsonV::Arr(images_json(c.images->0))))
    } else {
        p
    };
    p
}

pub open spec fn cmd_json(c: CmdV) -> JsonV {
    JsonV::Obj(cmd_pairs(c))
}

impl RpcCommand {
    /// A fire-and-forget command: just a verb, everything else absent.
    pub fn bare(kind: Vec<u8>) -> (r: RpcCommand)
        ensures
            r@ == (CmdV {
                id: None,
                kind: kind@,
                session_id: None,
                cwd: None,
                message: None,
                provider: None,
                model_id: None,
                streaming_behavior: None,
                session_file: None,
                level: None,
                images: None,
            }),
    {
        RpcCommand {
            id: None,
            kind,
            session_id: None,
            cwd: None,
            message: None,
            provider: None,
            model_id: None,
            streaming_behavior: None,
            session_file: None,
            level: None,
            images: None,
        }
    }

    /// The command as a JSON value.
    pub fn to_json(&self) -> (r: Json)
        ensures
            r@ == cmd_json(self@),
    {
        let mut pairs: Vec<(Vec<u8>, Json)> = Vec::new();
        proof {
            lemma_jview_pairs(pairs@);
            assert(jview_pairs(pairs@) =~= Seq::<(Seq<u8>, JsonV)>::empty());
        }
        if let Some(id) = &self.id {
            let k = vec![0x69u8, 0x64];
            assert(k@ =~= key_id());
            push_str_pair(&mut pairs, k, id);
        }
        let k = vec![0x74u8, 0x79, 0x70, 0x65];
        assert(k@ =~= key_type());
        push_str_pair(&mut pairs, k, &self.kind);
        if let Some(v) = &self.session_id {
            let k = vec![0x73u8, 0x65, 0x73, 0x73, 0x69, 0x6f, 0x6e, 0x49, 0x64];
            assert(k@ =~= key_session_id());
            push_str_pair(&mut pairs, k, v);
        }
        if let Some(v) = &self.cwd {
            let k = vec![0x63u8, 0x77, 0x64];
            assert(k@ =~= key_cwd());
            push_str_pair(&mut pairs, k, v);
        }
        if let Some(v) = &self.message {
            let k = vec![0x6du8, 0x65, 0x73, 0x73, 0x61, 0x67, 0x65];
            assert(k@ =~= key_message());
            push_str_pair(&mut pairs, k, v);
        }
        if let Some(v) = &self.provider {
            let k = vec![0x70u8, 0x72, 0x6f, 0x76, 0x69, 0x64, 0x65, 0x72];
            assert(k@ =~= key_provider());
            push_str_pair(&mut pairs, k, v);
        }
        if let Some(v) = &self.model_id {
            let k = vec![0x6du8, 0x6f, 0x64, 0x65, 0x6c, 0x49, 0x64];
            assert(k@ =~= key_model_id());
            push_str_pair(&mut pairs, k, v);
        }
        if let Some(v) = &self.streaming_behavior {
            let k = vec![
                0x73u8, 0x74, 0x72, 0x65, 0x61, 0x6d, 0x69, 0x6e, 0x67, 0x42, 0x65, 0x68,
                0x61, 0x76, 0x69, 0x6f, 0x72,
            ];
            assert(k@ =~= key_streaming_behavior());
            push_str_pair(&mut pairs, k, v);
        }
        if let Some(v) = &self.session_file {
            let k = vec![0x73u8, 0x65, 0x73, 0x73, 0x69, 0x6f, 0x6e, 0x46, 0x69, 0x6c, 0x65];
            assert(k@ =~= key_session_file());
            push_str_pair(&mut pairs, k, v);
        }
        if let Some(v) = &self.level {
            let k = vec![0x6cu8, 0x65, 0x76, 0x65, 0x6c];
            assert(k@ =~= key_level());
            push_str_pair(&mut pairs, k, v);
        }
        if let Some(imgs) = &self.images {
            let arr = images_to_json(imgs);
            let k = vec![0x69u8, 0x6d, 0x61, 0x67, 0x65, 0x73];
            assert(k@ =~= key_images());
            let ghost prepairs = jview_pairs(pairs@);
            let ghost prepairsv = pairs@;
            pairs.push((k, Json::Arr(arr)));
            proof {
                assert(pairs@.drop_last() =~= prepairsv);
                crate::json::lemma_jview_pairs_push(
                    pairs@.drop_last(),
                    pairs@.last().0,
                    pairs@.last().1,
                );
                assert(pairs@.drop_last().push((pairs@.last().0, pairs@.last().1)) =~= pairs@);
            }
        }
        let r = Json::Obj(pairs);
        assert(jview_pairs(pairs@) =~= cmd_pairs(self@));
        r
    }

    /// The command's wire form.
    pub fn encode(&self) -> (r: Vec<u8>)
        ensures
            r@ == crate::json::sp_ser(cmd_json(self@)),
    {
        let j = self.to_json();
        crate::json::to_bytes(&j)
    }
}

/// An optional string-valued field: absent means `None`, a string means
/// `Some`, anything else fails the decode.
pub open spec fn opt_str_field(o: Option<JsonV>) -> Option<Option<Seq<u8>>> {
    match o {
        None => Some(None),
        Some(JsonV::Str(t)) => Some(Some(t)),
        Some(_) => None,
    }
}

/// Strict decode of one attachment.
pub open spec fn image_of_json(v: JsonV) -> Option<ImageV> {
    match (jget(v, key_type()), jget(v, key_data()), jget(v, key_mime_type())) {
        (Some(JsonV::Str(k)), Some(JsonV::Str(d)), Some(JsonV::Str(m))) => Some(
            ImageV { kind: k, data: d, mime_type: m },
        ),
        _ => None,
    }
}

/// Strict decode of an attachment list.
pub open spec fn images_of_json(els: Seq<JsonV>) -> Option<Seq<ImageV>>
    decreases els.len(),
{
    if els.len() == 0 {
        Some(Seq::empty())
    } else {
        match (images_of_json(els.drop_last()), image_of_json(els.last())) {
            (Some(init), Some(a)) => Some(init.push(a)),
            _ => None,
        }
    }
}

/// Strict decode of a command: the verb must be a string; each optional
/// field must be absent or a string (the attachment list an array of
/// attachment objects); anything else fails.
pub open spec fn cmd_of_json(v: JsonV) -> Option<CmdV> {
    if !(v is Obj) {
        None
    } else {
        let kind = jget(v, key_type());
        match (
            kind,
            opt_str_field(jget(v, key_id())),
            opt_str_field(jget(v, key_session_id())),
            opt_str_field(jget(v, key_cwd())),
            opt_str_field(jget(v, key_message())),
            opt_str_field(jget(v, key_provider())),
            opt_str_field(jget(v, key_model_id())),
            opt_str_field(jget(v, key_streaming_behavior())),
            opt_str_field(jget(v, key_session_file())),
            opt_str_field(jget(v, key_level())),
        ) {
            (
                Some(JsonV::Str(kind)),
                Some(id),
                Some(session_id),
                Some(cwd),
                Some(message),
                Some(provider),
                Some(model_id),
                Some(streaming_behavior),
                Some(session_file),
                Some(level),
            ) => {
                match jget(v, key_images()) {
                    None => Some(
                        CmdV {
                            id,
                            kind,
                            session_id,
                            cwd,
                            message,
                            provider,
                            model_id,
                            streaming_behavior,
                            session_file,
                            level,
                            images: None,
                        },
                    ),
                    Some(JsonV::Arr(els)) => match images_of_json(els) {
                        Some(imgs) => Some(
                            CmdV {
                                id,
                                kind,
                                session_id,
                                cwd,
                                message,
                                provider,
                                model_id,
                                streaming_behavior,
                                session_file,
                                level,
                                images: Some(imgs),
                            },
                        ),
                        None => None,
                    },
                    Some(_) => None,
                }
            },
            _ => None,
        }
    }
}

/// No two distinct wire keys are the same byte string.
proof fn lemma_keys_distinct()
    ensures
        key_message() != key_model_id(),
        key_type() != key_data(),
{
    assert(key_message()[1] != key_model_id()[1]);
    assert(key_type()[0] != key_data()[0]);
}

/// Looking up a key just pushed finds its value.
proof fn lemma_get_pushed(p: Seq<(Seq<u8>, JsonV)>, k: Seq<u8>, v: JsonV)
    ensures
        obj_get(p.push((k, v)), k) == Some(v),
{
    assert(p.push((k, v)).last() == (k, v));
}

/// Looking up any other key skips the pushed pair.
proof fn lemma_get_other(p: Seq<(Seq<u8>, JsonV)>, k: Seq<u8>, v: JsonV, k2: Seq<u8>)
    requires
        k != k2,
    ensures
        obj_get(p.push((k, v)), k2) == obj_get(p, k2),
{
    assert(p.push((k, v)).last() == (k, v));
    assert(p.push((k, v)).drop_last() =~= p);
}

/// Decoding an encoded attachment list gives the list back.
proof fn lemma_images_round_trip(imgs: Seq<ImageV>)
    ensures
        images_of_json(images_json(imgs)) == Some(imgs),
    decreases imgs.len(),
{
    lemma_keys_distinct();
    reveal_with_fuel(obj_get, 5);
    let els = images_json(imgs);
    if imgs.len() == 0 {
        assert(els.len() == 0);
        assert(images_of_json(els) == Some(Seq::<ImageV>::empty()));
        assert(Seq::<ImageV>::empty() =~= imgs);
    } else {
        lemma_images_round_trip(imgs.drop_last());
        assert(els.drop_last() =~= images_json(imgs.drop_last()));
        assert(els.last() == image_json(imgs.last()));
        let a = imgs.last();
        let apairs = seq![
            (key_type(), JsonV::Str(a.kind)),
            (key_data(), JsonV::Str(a.data)),
            (key_mime_type(), JsonV::Str(a.mime_type)),
        ];
        assert(apairs.last() == (key_mime_type(), JsonV::Str(a.mime_type)));
        assert(obj_get(apairs, key_mime_type()) == Some(JsonV::Str(a.mime_type)));
        assert(obj_get(apairs, key_data()) == Some(JsonV::Str(a.data))) by {
            assert(apairs.drop_last() =~= seq![
                (key_type(), JsonV::Str(a.kind)),
                (key_data(), JsonV::Str(a.data)),
            ]);
        }
        assert(obj_get(apairs, key_type()) == Some(JsonV::Str(a.kind))) by {
            assert(apairs.drop_last() =~= seq![
                (key_type(), JsonV::Str(a.kind)),
                (key_data(), JsonV::Str(a.data)),
            ]);
            assert(apairs.drop_last().drop_last() =~= seq![(key_type(), JsonV::Str(a.kind))]);
        }
        assert(image_of_json(els.last()) == Some(a));
        assert(imgs.drop_last().push(a) =~= imgs);
    }
}

/// Round trip: decoding the JSON form of a command restores the command,
/// every populated optional field included; the wire form of an absent
/// field is no member at all, as `cmd_pairs` shows.
#[verifier::rlimit(100)]
#[verifier::spinoff_prover]
pub proof fn lemma_cmd_json_round_trip(c: CmdV)
    ensures
        cmd_of_json(cmd_json(c)) == Some(c),
{
    lemma_keys_distinct();
    if c.images is Some {
        lemma_images_round_trip(c.images->0);
    }
    let p0 = Seq::<(Seq<u8>, JsonV)>::empty();
    let p1 = if c.id is Some { p0.push((key_id(), JsonV::Str(c.id->0))) } else { p0 };
    let p2 = p1.push((key_type(), JsonV::Str(c.kind)));
    let p3 = if c.session_id is Some { p2.push((key_session_id(), JsonV::Str(c.session_id->0))) } else { p2 };
    let p4 = if c.cwd is Some { p3.push((key_cwd(), JsonV::Str(c.cwd->0))) } else { p3 };
    let p5 = if c.message is Some { p4.push((key_message(), JsonV::Str(c.message->0))) } else { p4 };
    let p6 = if c.provider is Some { p5.push((key_provider(), JsonV::Str(c.provider->0))) } else { p5 };
    let p7 = if c.model_id is Some { p6.push((key_model_id(), JsonV::Str(c.model_id->0))) } else { p6 };
    let p8 = if c.streaming_behavior is Some { p7.push((key_streaming_behavior(), JsonV::Str(c.streaming_behavior->0))) } else { p7 };
    let p9 = if c.session_file is Some { p8.push((key_session_file(), JsonV::Str(c.session_file->0))) } else { p8 };
    let p10 = if c.level is Some { p9.push((key_level(), JsonV::Str(c.level->0))) } else { p9 };
    let p11 = if c.images is Some { p10.push((key_images(), JsonV::Arr(images_json(c.images->0)))) } else { p10 };
    assert(cmd_pairs(c) == p11);
    // lookup of id
    if c.images is Some { lemma_get_other(p10, key_images(), JsonV::Arr(images_json(c.images->0)), key_id()); }
    if c.level is Some { lemma_get_other(p9, key_level(), JsonV::Str(c.level->0), key_id()); }
    if c.session_file is Some { lemma_get_other(p8, key_session_file(), JsonV::Str(c.session_file->0), key_id()); }
    if c.streaming_behavior is Some { lemma_get_other(p7, key_streaming_behavior(), JsonV::Str(c.streaming_behavior->0), key_id()); }
    if c.model_id is Some { lemma_get_other(p6, key_model_id(), JsonV::Str(c.model_id->0), key_id()); }
    if c.provider is Some { lemma_get_other(p5, key_provider(), JsonV::Str(c.provider->0), key_id()); }
    if c.message is Some { lemma_get_other(p4, key_message(), JsonV::Str(c.message->0), key_id()); }
    if c.cwd is Some { lemma_get_other(p3, key_cwd(), JsonV::Str(c.cwd->0), key_id()); }
    if c.session_id is Some { lemma_get_other(p2, key_session_id(), JsonV::Str(c.session_id->0), key_id()); }
    lemma_get_other(p1, key_type(), JsonV::Str(c.kind), key_id());
    if c.id is Some { lemma_get_pushed(p0, key_id(), JsonV::Str(c.id->0)); }
    // lookup of kind
    if c.images is Some { lemma_get_other(p10, key_images(), JsonV::Arr(images_json(c.images->0)), key_type()); }
    if c.level is Some { lemma_get_other(p9, key_level(), JsonV::Str(c.level->0), key_type()); }
    if c.session_file is Some { lemma_get_other(p8, key_session_file(), JsonV::Str(c.session_file->0), key_type()); }
    if c.streaming_behavior is Some { lemma_get_other(p7, key_streaming_behavior(), JsonV::Str(c.streaming_behavior->0), key_type()); }
    if c.model_id is Some { lemma_get_other(p6, key_model_id(), JsonV::Str(c.model_id->0), key_type()); }
    if c.provider is Some { lemma_get_other(p5, key_provider(), JsonV::Str(c.provider->0), key_type()); }
    if c.message is Some { lemma_get_other(p4, key_message(), JsonV::Str(c.message->0), key_type()); }
    if c.cwd is Some { lemma_get_other(p3, key_cwd(), JsonV::Str(c.cwd->0), key_type()); }
    if c.session_id is Some { lemma_get_other(p2, key_session_id(), JsonV::Str(c.session_id->0), key_type()); }
    lemma_get_pushed(p1, key_type(), JsonV::Str(c.kind));
    if c.id is Some { lemma_get_other(p0, key_id(), JsonV::Str(c.id->0), key_type()); }
    // lookup of session_id
    if c.images is Some { lemma_get_other(p10, key_images(), JsonV::Arr(images_json(c.images->0)), key_session_id()); }
    if c.level is Some { lemma_get_other(p9, key_level(), JsonV::Str(c.level->0), key_session_id()); }
    if c.session_file is Some { lemma_get_other(p8, key_session_file(), JsonV::Str(c.session_file->0), key_session_id()); }
    if c.streaming_behavior is Some { lemma_get_other(p7, key_streaming_behavior(), JsonV::Str(c.streaming_behavior->0), key_session_id()); }
    if c.model_id is Some { lemma_get_other(p6, key_model_id(), JsonV::Str(c.model_id->0), key_session_id()); }
    if c.provider is Some { lemma_get_other(p5, key_provider(), JsonV::Str(c.provider->0), key_session_id()); }
    if c.message is Some { lemma_get_other(p4, key_message(), JsonV::Str(c.message->0), key_session_id()); }
    if c.cwd is Some { lemma_get_other(p3, key_cwd(), JsonV::Str(c.cwd->0), key_session_id()); }
    if c.session_id is Some { lemma_get_pushed(p2, key_session_id(), JsonV::Str(c.session_id->0)); }
    lemma_get_other(p1, key_type(), JsonV::Str(c.kind), key_session_id());
    if c.id is Some { lemma_get_other(p0, key_id(), JsonV::Str(c.id->0), key_session_id()); }
    // lookup of cwd
    if c.images is Some { lemma_get_other(p10, key_images(), JsonV::Arr(images_json(c.images->0)), key_cwd()); }
    if c.level is Some { lemma_get_other(p9, key_level(), JsonV::Str(c.level->0), key_cwd()); }
    if c.session_file is Some { lemma_get_other(p8, key_session_file(), JsonV::Str(c.session_file->0), key_cwd()); }
    if c.streaming_behavior is Some { lemma_get_other(p7, key_streaming_behavior(), JsonV::Str(c.streaming_behavior->0), key_cwd()); }
    if c.model_id is Some { lemma_get_other(p6, key_model_id(), JsonV::Str(c.model_id->0), key_cwd()); }
    if c.provider is Some { lemma_get_other(p5, key_provider(), JsonV::Str(c.provider->0), key_cwd()); }
    if c.message is Some { lemma_get_other(p4, key_message(), JsonV::Str(c.message->0), key_cwd()); }
    if c.cwd is Some { lemma_get_pushed(p3, key_cwd(), JsonV::Str(c.cwd->0)); }
    if c.session_id is Some { lemma_get_other(p2, key_session_id(), JsonV::Str(c.session_id->0), key_cwd()); }
    lemma_get_other(p1, key_type(), JsonV::Str(c.kind), key_cwd());
    if c.id is Some { lemma_get_other(p0, key_id(), JsonV::Str(c.id->0), key_cwd()); }
    // lookup of message
    if c.images is Some { lemma_get_other(p10, key_images(), JsonV::Arr(images_json(c.images->0)), key_message()); }
    if c.level is Some { lemma_get_other(p9, key_level(), JsonV::Str(c.level->0), key_message()); }
    if c.session_file is Some { lemma_get_other(p8, key_session_file(), JsonV::Str(c.session_file->0), key_message()); }
    if c.streaming_behavior is Some { lemma_get_other(p7, key_streaming_behavior(), JsonV::Str(c.streaming_behavior->0), key_message()); }
    if c.model_id is Some { lemma_get_other(p6, key_model_id(), JsonV::Str(c.model_id->0), key_message()); }
    if c.provider is Some { lemma_get_other(p5, key_provider(), JsonV::Str(c.provider->0), key_message()); }
    if c.message is Some { lemma_get_pushed(p4, key_message(), JsonV::Str(c.message->0)); }
    if c.cwd is Some { lemma_get_other(p3, key_cwd(), JsonV::Str(c.cwd->0), key_message()); }
    if c.session_id is Some { lemma_get_other(p2, key_session_id(), JsonV::Str(c.session_id->0), key_message()); }
    lemma_get_other(p1, key_type(), JsonV::Str(c.kind), key_message());
    if c.id is Some { lemma_get_other(p0, key_id(), JsonV::Str(c.id->0), key_message()); }
    // lookup of provider
    if c.images is Some { lemma_get_other(p10, key_images(), JsonV::Arr(images_json(c.images->0)), key_provider()); }
    if c.level is Some { lemma_get_other(p9, key_level(), JsonV::Str(c.level->0), key_provider()); }
    if c.session_file is Some { lemma_get_other(p8, key_session_file(), JsonV::Str(c.session_file->0), key_provider()); }
    if c.streaming_behavior is Some { lemma_get_other(p7, key_streaming_behavior(), JsonV::Str(c.streaming_behavior->0), key_provider()); }
    if c.model_id is Some { lemma_get_other(p6, key_model_id(), JsonV::Str(c.model_id->0), key_provider()); }
    if c.provider is Some { lemma_get_pushed(p5, key_provider(), JsonV::Str(c.provider->0)); }
    if c.message is Some { lemma_get_other(p4, key_message(), JsonV::Str(c.message->0), key_provider()); }
    if c.cwd is Some { lemma_get_other(p3, key_cwd(), JsonV::Str(c.cwd->0), key_provider()); }
    if c.session_id is Some { lemma_get_other(p2, key_session_id(), JsonV::Str(c.session_id->0), key_provider()); }
    lemma_get_other(p1, key_type(), JsonV::Str(c.kind), key_provider());
    if c.id is Some { lemma_get_other(p0, key_id(), JsonV::Str(c.id->0), key_provider()); }
    // lookup of model_id
    if c.images is Some { lemma_get_other(p10, key_images(), JsonV::Arr(images_json(c.images->0)), key_model_id()); }
    if c.level is Some { lemma_get_other(p9, key_level(), JsonV::Str(c.level->0), key_model_id()); }
    if c.session_file is Some { lemma_get_other(p8, key_session_file(), JsonV::Str(c.session_file->0), key_model_id()); }
    if c.streaming_behavior is Some { lemma_get_other(p7, key_streaming_behavior(), JsonV::Str(c.streaming_behavior->0), key_model_id()); }
    if c.model_id is Some { lemma_get_pushed(p6, key_model_id(), JsonV::Str(c.model_id->0)); }
    if c.provider is Some { lemma_get_other(p5, key_provider(), JsonV::Str(c.provider->0), key_model_id()); }
    if c.message is Some { lemma_get_other(p4, key_message(), JsonV::Str(c.message->0), key_model_id()); }
    if c.cwd is Some { lemma_get_other(p3, key_cwd(), JsonV::Str(c.cwd->0), key_model_id()); }
    if c.session_id is Some { lemma_get_other(p2, key_session_id(), JsonV::Str(c.session_id->0), key_model_id()); }
    lemma_get_other(p1, key_type(), JsonV::Str(c.kind), key_model_id());
    if c.id is Some { lemma_get_other(p0, key_id(), JsonV::Str(c.id->0), key_model_id()); }
    // lookup of streaming_behavior
    if c.images is Some { lemma_get_other(p10, key_images(), JsonV::Arr(images_json(c.images->0)), key_streaming_behavior()); }
    if c.level is Some { lemma_get_other(p9, key_level(), JsonV::Str(c.level->0), key_streaming_behavior()); }
    if c.session_file is Some { lemma_get_other(p8, key_session_file(), JsonV::Str(c.session_file->0), key_streaming_behavior()); }
    if c.streaming_behavior is Some { lemma_get_pushed(p7, key_streaming_behavior(), JsonV::Str(c.streaming_behavior->0)); }
    if c.model_id is Some { lemma_get_other(p6, key_model_id(), JsonV::Str(c.model_id->0), key_streaming_behavior()); }
    if c.provider is Some { lemma_get_other(p5, key_provider(), JsonV::Str(c.provider->0), key_streaming_behavior()); }
    if c.message is Some { lemma_get_other(p4, key_message(), JsonV::Str(c.message->0), key_streaming_behavior()); }
    if c.cwd is Some { lemma_get_other(p3, key_cwd(), JsonV::Str(c.cwd->0), key_streaming_behavior()); }
    if c.session_id is Some { lemma_get_other(p2, key_session_id(), JsonV::Str(c.session_id->0), key_streaming_behavior()); }
    lemma_get_other(p1, key_type(), JsonV::Str(c.kind), key_streaming_behavior());
    if c.id is Some { lemma_get_other(p0, key_id(), JsonV::Str(c.id->0), key_streaming_behavior()); }
    // lookup of session_file
    if c.images is Some { lemma_get_other(p10, key_images(), JsonV::Arr(images_json(c.images->0)), key_session_file()); }
    if c.level is Some { lemma_get_other(p9, key_level(), JsonV::Str(c.level->0), key_session_file()); }
    if c.session_file is Some { lemma_get_pushed(p8, key_session_file(), JsonV::Str(c.session_file->0)); }
    if c.streaming_behavior is Some { lemma_get_other(p7, key_streaming_behavior(), JsonV::Str(c.streaming_behavior->0), key_session_file()); }
    if c.model_id is Some { lemma_get_other(p6, key_model_id(), JsonV::Str(c.model_id->0), key_session_file()); }
    if c.provider is Some { lemma_get_other(p5, key_provider(), JsonV::Str(c.provider->0), key_session_file()); }
    if c.message is Some { lemma_get_other(p4, key_message(), JsonV::Str(c.message->0), key_session_file()); }
    if c.cwd is Some { lemma_get_other(p3, key_cwd(), JsonV::Str(c.cwd->0), key_session_file()); }
    if c.session_id is Some { lemma_get_other(p2, key_session_id(), JsonV::Str(c.session_id->0), key_session_file()); }
    lemma_get_other(p1, key_type(), JsonV::Str(c.kind), key_session_file());
    if c.id is Some { lemma_get_other(p0, key_id(), JsonV::Str(c.id->0), key_session_file()); }
    // lookup of level
    if c.images is Some { lemma_get_other(p10, key_images(), JsonV::Arr(images_json(c.images->0)), key_level()); }
    if c.level is Some { lemma_get_pushed(p9, key_level(), JsonV::Str(c.level->0)); }
    if c.session_file is Some { lemma_get_other(p8, key_session_file(), JsonV::Str(c.session_file->0), key_level()); }
    if c.streaming_behavior is Some { lemma_get_other(p7, key_streaming_behavior(), JsonV::Str(c.streaming_behavior->0), key_level()); }
    if c.model_id is Some { lemma_get_other(p6, key_model_id(), JsonV::Str(c.model_id->0), key_level()); }
    if c.provider is Some { lemma_get_other(p5, key_provider(), JsonV::Str(c.provider->0), key_level()); }
    if c.message is Some { lemma_get_other(p4, key_message(), JsonV::Str(c.message->0), key_level()); }
    if c.cwd is Some { lemma_get_other(p3, key_cwd(), JsonV::Str(c.cwd->0), key_level()); }
    if c.session_id is Some { lemma_get_other(p2, key_session_id(), JsonV::Str(c.session_id->0), key_level()); }
    lemma_get_other(p1, key_type(), JsonV::Str(c.kind), key_level());
    if c.id is Some { lemma_get_other(p0, key_id(), JsonV::Str(c.id->0), key_level()); }
    // lookup of images
    if c.images is Some { lemma_get_pushed(p10, key_images(), JsonV::Arr(images_json(c.images->0))); }
    if c.level is Some { lemma_get_other(p9, key_level(), JsonV::Str(c.level->0), key_images()); }
    if c.session_file is Some { lemma_get_other(p8, key_session_file(), JsonV::Str(c.session_file->0), key_images()); }
    if c.streaming_behavior is Some { lemma_get_other(p7, key_streaming_behavior(), JsonV::Str(c.streaming_behavior->0), key_images()); }
    if c.model_id is Some { lemma_get_other(p6, key_model_id(), JsonV::Str(c.model_id->0), key_images()); }
    if c.provider is Some { lemma_get_other(p5, key_provider(), JsonV::Str(c.provider->0), key_images()); }
    if c.message is Some { lemma_get_other(p4, key_message(), JsonV::Str(c.message->0), key_images()); }
    if c.cwd is Some { lemma_get_other(p3, key_cwd(), JsonV::Str(c.cwd->0), key_images()); }
    if c.session_id is Some { lemma_get_other(p2, key_session_id(), JsonV::Str(c.session_id->0), key_images()); }
    lemma_get_other(p1, key_type(), JsonV::Str(c.kind), key_images());
    if c.id is Some { lemma_get_other(p0, key_id(), JsonV::Str(c.id->0), key_images()); }
    assert(cmd_of_json(cmd_json(c)) == Some(c));
}

/// An inbound command response. Consumed exactly once by its matching
/// waiter, or dropped when none exists.
pub struct RpcResponse {
    pub id: Option<Vec<u8>>,
    /// The envelope discriminator (the `type` key), `response` on the wire.
    pub kind: Vec<u8>,
    /// The verb of the command this answers.
    pub command: Vec<u8>,
    pub success: bool,
    pub data: Option<Json>,
    pub error: Option<Vec<u8>>,
}

/// Mathematical model of a response.
pub struct RespV {
    pub id: Option<Seq<u8>>,
    pub kind: Seq<u8>,
    pub command: Seq<u8>,
    pub success: bool,
    pub data: Option<JsonV>,
    pub error: Option<Seq<u8>>,
}

impl View for RpcResponse {
    type V = RespV;

    open spec fn view(&self) -> RespV {
        RespV {
            id: opt_bytes(self.id),
            kind: self.kind@,
            command: self.command@,
            success: self.success,
            data: match self.data {
                Some(d) => Some(d@),
                None => None,
            },
            error: opt_bytes(self.error),
        }
    }
}

/// An inbound session event envelope.
pub struct SessionEventEnvelope {
    /// The envelope discriminator, `session_event` on the wire.
    pub kind: Vec<u8>,
    pub session_id: Vec<u8>,
    pub event: Json,
}

/// Mathematical model of an envelope.
pub struct EnvV {
    pub kind: Seq<u8>,
    pub session_id: Seq<u8>,
    pub event: JsonV,
}

impl View for SessionEventEnvelope {
    type V = EnvV;

    open spec fn view(&self) -> EnvV {
        EnvV { kind: self.kind@, session_id: self.session_id@, event: self.event@ }
    }
}

/// An optional string-valued field that also tolerates an explicit null.
pub open spec fn opt_str_null(o: Option<JsonV>) -> Option<Option<Seq<u8>>> {
    match o {
        None => Some(None),
        Some(JsonV::Null) => Some(None),
        Some(JsonV::Str(t)) => Some(Some(t)),
        Some(_) => None,
    }
}

/// Strict decode of a response: `type`, `command` and `success` must be
/// present with the right shapes; `id` and `error` may be absent, null or
/// strings; `data` is any value, with null meaning absent.
pub open spec fn resp_of_json(v: JsonV) -> Option<RespV> {
    if !(v is Obj) {
        None
    } else {
        match (
            jget(v, key_type()),
            jget(v, key_command()),
            jget(v, key_success()),
            opt_str_null(jget(v, key_id())),
            opt_str_null(jget(v, key_error())),
        ) {
            (
                Some(JsonV::Str(kind)),
                Some(JsonV::Str(command)),
                Some(JsonV::Bool(success)),
                Some(id),
                Some(error),
            ) => Some(
                RespV {
                    id,
                    kind,
                    command,
                    success,
                    data: match jget(v, key_data()) {
                        None => None,
                        Some(JsonV::Null) => None,
                        Some(d) => Some(d),
                    },
                    error,
                },
            ),
            _ => None,
        }
    }
}

/// Strict decode of a session event envelope: `type` and `sessionId` must
/// be strings, `event` must be present.
pub open spec fn env_of_json(v: JsonV) -> Option<EnvV> {
    match (jget(v, key_type()), jget(v, key_session_id()), jget(v, key_event())) {
        (Some(JsonV::Str(kind)), Some(JsonV::Str(session_id)), Some(event)) => Some(
            EnvV { kind, session_id, event },
        ),
        _ => None,
    }
}

impl RpcResponse {
    /// Strict decode from a parsed unit.
    pub fn decode(v: &Json) -> (r: Option<RpcResponse>)
        ensures
            match r {
                Some(resp) => resp_of_json(v@) == Some(resp@),
                None => resp_of_json(v@) is None,
            },
    {
        if !matches!(v, Json::Obj(_)) {
            return None;
        }
        let ktype = vec![0x74u8, 0x79, 0x70, 0x65];
        assert(ktype@ =~= key_type());
        let kind = match v.get(ktype.as_slice()) {
            Some(Json::Str(t)) => crate::handler::EventHandler::clone_bytes(t),
            _ => {
                return None;
            },
        };
        let kcmd = vec![0x63u8, 0x6f, 0x6d, 0x6d, 0x61, 0x6e, 0x64];
        assert(kcmd@ =~= key_command());
        let command = match v.get(kcmd.as_slice()) {
            Some(Json::Str(t)) => crate::handler::EventHandler::clone_bytes(t),
            _ => {
                return None;
            },
        };
        let ksucc = vec![0x73u8, 0x75, 0x63, 0x63, 0x65, 0x73, 0x73];
        assert(ksucc@ =~= key_success());
        let success = match v.get(ksucc.as_slice()) {
            Some(Json::Bool(b)) => *b,
            _ => {
                return None;
            },
        };
        let kid = vec![0x69u8, 0x64];
        assert(kid@ =~= key_id());
        let id = match v.get(kid.as_slice()) {
            None => None,
            Some(Json::Null) => None,
            Some(Json::Str(t)) => Some(crate::handler::EventHandler::clone_bytes(t)),
            Some(_) => {
                return None;
            },
        };
        let kerr = vec![0x65u8, 0x72, 0x72, 0x6f, 0x72];
        assert(kerr@ =~= key_error());
        let error = match v.get(kerr.as_slice()) {
            None => None,
            Some(Json::Null) => None,
            Some(Json::Str(t)) => Some(crate::handler::EventHandler::clone_bytes(t)),
            Some(_) => {
                return None;
            },
        };
        let kdata = vec![0x64u8, 0x61, 0x74, 0x61];
        assert(kdata@ =~= key_data());
        let data = match v.get(kdata.as_slice()) {
            None => None,
            Some(Json::Null) => None,
            Some(d) => Some(d.clone_value()),
        };
        Some(RpcResponse { id, kind, command, success, data, error })
    }
}

impl SessionEventEnvelope {
    /// Strict decode from a parsed unit.
    pub fn decode(v: &Json) -> (r: Option<SessionEventEnvelope>)
        ensures
            match r {
                Some(env) => env_of_json(v@) == Some(env@),
                None => env_of_json(v@) is None,
            },
    {
        let ktype = vec![0x74u8, 0x79, 0x70, 0x65];
        assert(ktype@ =~= key_type());
        let kind = match v.get(ktype.as_slice()) {
            Some(Json::Str(t)) => crate::handler::EventHandler::clone_bytes(t),
            _ => {
                return None;
            },
        };
        let ksid = vec![0x73u8, 0x65, 0x73, 0x73, 0x69, 0x6f, 0x6e, 0x49, 0x64];
        assert(ksid@ =~= key_session_id());
        let session_id = match v.get(ksid.as_slice()) {
            Some(Json::Str(t)) => crate::handler::EventHandler::clone_bytes(t),
            _ => {
                return None;
            },
        };
        let kev = vec![0x65u8, 0x76, 0x65, 0x6e, 0x74];
        assert(kev@ =~= key_event());
        let event = match v.get(kev.as_slice()) {
            Some(e) => e.clone_value(),
            None => {
                return None;
            },
        };
        Some(SessionEventEnvelope { kind, session_id, event })
    }
}

/// The image list as JSON values.
fn images_to_json(imgs: &Vec<RpcImageAttachment>) -> (r: Vec<Json>)
    ensures
        crate::json::jview_seq(r@) == images_json(imgs.deep_view()),
{
    let mut arr: Vec<Json> = Vec::new();
    let mut i: usize = 0;
    proof {
        crate::json::lemma_jview_seq(arr@);
        assert(crate::json::jview_seq(arr@) =~= images_json(imgs.deep_view().take(0)));
    }
    while i < imgs.len()
        invariant
            i <= imgs@.len(),
            imgs.deep_view().len() == imgs@.len(),
            forall|k: int| 0 <= k < imgs@.len() ==> imgs.deep_view()[k] == #[trigger] imgs@[k]@,
            crate::json::jview_seq(arr@) == images_json(imgs.deep_view().take(i as int)),
        decreases imgs@.len() - i,
    {
        let a = &imgs[i];
        let mut apairs: Vec<(Vec<u8>, Json)> = Vec::new();
        proof {
            lemma_jview_pairs(apairs@);
            assert(jview_pairs(apairs@) =~= Seq::<(Seq<u8>, JsonV)>::empty());
        }
        let k = vec![0x74u8, 0x79, 0x70, 0x65];
        assert(k@ =~= key_type());
        push_str_pair(&mut apairs, k, &a.kind);
        let k = vec![0x64u8, 0x61, 0x74, 0x61];
        assert(k@ =~= key_data());
        push_str_pair(&mut apairs, k, &a.data);
        let k = vec![0x6du8, 0x69, 0x6d, 0x65, 0x54, 0x79, 0x70, 0x65];
        assert(k@ =~= key_mime_type());
        push_str_pair(&mut apairs, k, &a.mime_type);
        let obj = Json::Obj(apairs);
        proof {
            assert(jview_pairs(apairs@) =~= seq![
                (key_type(), JsonV::Str(a@.kind)),
                (key_data(), JsonV::Str(a@.data)),
                (key_mime_type(), JsonV::Str(a@.mime_type)),
            ]);
            assert(obj@ == image_json(imgs@[i as int]@));
        }
        let ghost pre = crate::json::jview_seq(arr@);
        let ghost prearr = arr@;
        arr.push(obj);
        proof {
            assert(arr@.drop_last() =~= prearr);
            crate::json::lemma_jview_seq_push(arr@.drop_last(), arr@.last());
            assert(arr@.drop_last().push(arr@.last()) =~= arr@);
            assert(arr@.last() == obj);
            assert(imgs.deep_view().take(i + 1).drop_last() =~= imgs.deep_view().take(i as int));
            assert(images_json(imgs.deep_view().take(i + 1)) =~= images_json(
                imgs.deep_view().take(i as int),
            ).push(image_json(imgs.deep_view()[i as int])));
        }
        i += 1;
    }
    assert(imgs.deep_view().take(imgs@.len() as int) =~= imgs.deep_view());
    arr
}

/// Pushes one string-valued member.
fn push_str_pair(pairs: &mut Vec<(Vec<u8>, Json)>, key: Vec<u8>, value: &Vec<u8>) -> (r: ())
    ensures
        jview_pairs(final(pairs)@) == jview_pairs(old(pairs)@).push((key@, JsonV::Str(value@))),
{
    let v = crate::handler::EventHandler::clone_bytes(value);
    pairs.push((key, Json::Str(v)));
    proof {
        assert(pairs@.drop_last() =~= old(pairs)@);
        crate::json::lemma_jview_pairs_push(pairs@.drop_last(), pairs@.last().0, pairs@.last().1);
        assert(pairs@.drop_last().push((pairs@.last().0, pairs@.last().1)) =~= pairs@);
    }
}

} // verus!
