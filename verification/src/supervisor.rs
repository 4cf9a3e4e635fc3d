//! Process supervision decisions: invocation arguments, the idempotent
//! start gate, and the staged-runtime refresh rules.
//!
//! Spawning itself, and the file work around the staged runtime, happen in
//! the surrounding program; every decision about them is made here, from
//! plain values. The packaged worker binary arrives as a gzip archive; its
//! extraction is checked against the archive's content fingerprint and the
//! extracted binary's signature, and redone whenever either fails, so a
//! stale extraction cannot survive an upgrade.

use vstd::prelude::*;

use crate::handler::sp_trim;
use crate::json::{dec_bytes, dec_digits, bytes_eq};

verus! {

broadcast use vstd::seq::group_seq_axioms;

/// Builds the worker invocation and owns the start decision.
pub struct SidecarManager;

/// The fixed protocol-selection arguments, then the optional provider and
/// model overrides.
pub open spec fn sp_sidecar_args(provider: Option<Seq<u8>>, model: Option<Seq<u8>>) -> Seq<
    Seq<u8>,
> {
    let base = seq![
        // --mode
        seq![0x2du8, 0x2d, 0x6d, 0x6f, 0x64, 0x65],
        // rpc
        seq![0x72u8, 0x70, 0x63],
        // --no-session
        seq![0x2du8, 0x2d, 0x6e, 0x6f, 0x2d, 0x73, 0x65, 0x73, 0x73, 0x69, 0x6f, 0x6e],
        // --no-skills
        seq![0x2du8, 0x2d, 0x6e, 0x6f, 0x2d, 0x73, 0x6b, 0x69, 0x6c, 0x6c, 0x73],
    ];
    let with_provider = match provider {
        Some(p) => base + seq![
            // --provider
            seq![0x2du8, 0x2d, 0x70, 0x72, 0x6f, 0x76, 0x69, 0x64, 0x65, 0x72],
            p,
        ],
        None => base,
    };
    match model {
        Some(m) => with_provider + seq![
            // --model
            seq![0x2du8, 0x2d, 0x6d, 0x6f, 0x64, 0x65, 0x6c],
            m,
        ],
        None => with_provider,
    }
}

impl SidecarManager {
    /// The argument list for one worker invocation.
    pub fn build_sidecar_command(provider: Option<&Vec<u8>>, model: Option<&Vec<u8>>) -> (r: Vec<
        Vec<u8>,
    >)
        ensures
            r.deep_view() == sp_sidecar_args(
                match provider {
                    Some(p) => Some(p@),
                    None => None,
                },
                match model {
                    Some(m) => Some(m@),
                    None => None,
                },
            ),
    {
        let mut args: Vec<Vec<u8>> = Vec::new();
        args.push(vec![0x2du8, 0x2d, 0x6d, 0x6f, 0x64, 0x65]);
        args.push(vec![0x72u8, 0x70, 0x63]);
        args.push(vec![0x2du8, 0x2d, 0x6e, 0x6f, 0x2d, 0x73, 0x65, 0x73, 0x73, 0x69, 0x6f, 0x6e]);
        args.push(vec![0x2du8, 0x2d, 0x6e, 0x6f, 0x2d, 0x73, 0x6b, 0x69, 0x6c, 0x6c, 0x73]);
        if let Some(p) = provider {
            args.push(vec![0x2du8, 0x2d, 0x70, 0x72, 0x6f, 0x76, 0x69, 0x64, 0x65, 0x72]);
            args.push(crate::handler::EventHandler::clone_bytes(p));
        }
        if let Some(m) = model {
            args.push(vec![0x2du8, 0x2d, 0x6d, 0x6f, 0x64, 0x65, 0x6c]);
            args.push(crate::handler::EventHandler::clone_bytes(m));
        }
        proof {
            assert(args.deep_view() =~~= sp_sidecar_args(
                match provider {
                    Some(p) => Some(p@),
                    None => None,
                },
                match model {
                    Some(m) => Some(m@),
                    None => None,
                },
            ));
        }
        args
    }
}

/// The check-then-spawn gate. Concurrent start calls serialize on one lock
/// around this state; under that lock the decision below is atomic.
pub struct StartGate {
    pub running: bool,
}

/// One start call: the child is marked present afterwards, and the call
/// spawns exactly when none existed before.
pub open spec fn gate_step(running: bool) -> (bool, bool) {
    (true, !running)
}

impl StartGate {
    pub fn new() -> (r: StartGate)
        ensures
            !r.running,
    {
        StartGate { running: false }
    }

    /// Decides one start call: returns whether this caller must spawn.
    /// A child already present means success with no new spawn.
    pub fn begin_start(&mut self) -> (spawn: bool)
        ensures
            final(self).running,
            spawn == !old(self).running,
            (final(self).running, spawn) == gate_step(old(self).running),
    {
        let spawn = !self.running;
        self.running = true;
        spawn
    }

    /// The worker died or was stopped: an explicit new start is required
    /// before further commands.
    pub fn mark_stopped(&mut self)
        ensures
            !final(self).running,
    {
        self.running = false;
    }
}

/// Idempotent start: two start calls against a gate with no child spawn
/// exactly one worker between them, and both succeed.
pub proof fn lemma_idempotent_start()
    ensures
        ({
            let (r1, s1) = gate_step(false);
            let (r2, s2) = gate_step(r1);
            ((if s1 { 1int } else { 0 }) + (if s2 { 1int } else { 0 })) == 1 && r1 && r2
        }),
{
}

/// A content fingerprint of the packaged archive: its size and
/// modification time, as the surrounding program read them.
pub struct SourceStamp {
    pub len: u64,
    pub modified_secs: u64,
}

/// The stamp's one-line file form: `<len>:<modified>`.
pub open spec fn stamp_bytes(s: SourceStamp) -> Seq<u8> {
    dec_digits(s.len as nat) + seq![0x3au8] + dec_digits(s.modified_secs as nat)
}

impl SourceStamp {
    /// The stamp file contents for this fingerprint.
    pub fn encode(&self) -> (r: Vec<u8>)
        ensures
            r@ == stamp_bytes(*self),
    {
        let mut out = dec_bytes(self.len);
        out.push(0x3a);
        let rest = dec_bytes(self.modified_secs);
        crate::handler::append_bytes(&mut out, rest.as_slice());
        assert(out@ =~= stamp_bytes(*self));
        out
    }
}

/// Whether the staged runtime is stale: no readable stamp, a stamp that no
/// longer matches the archive fingerprint, or a missing extracted binary.
pub fn needs_refresh(stamp_file: Option<&[u8]>, source: &SourceStamp, extracted_exists: bool) -> (
    r: bool)
    ensures
        r == match stamp_file {
            None => true,
            Some(c) => sp_trim(c@) != stamp_bytes(*source) || !extracted_exists,
        },
{
    match stamp_file {
        None => true,
        Some(c) => {
            let trimmed = crate::handler::EventHandler::trim(c);
            let expected = source.encode();
            !bytes_eq(trimmed.as_slice(), expected.as_slice()) || !extracted_exists
        },
    }
}

/// Whether the extracted binary carries the executable signature the
/// worker must have (the ELF magic in its first four bytes).
pub fn validate_sidecar_binary(header: &[u8]) -> (r: bool)
    ensures
        r == (header@.len() >= 4 && header@[0] == 0x7f && header@[1] == 0x45 && header@[2]
            == 0x4c && header@[3] == 0x46),
{
    header.len() >= 4 && header[0] == 0x7f && header[1] == 0x45 && header[2] == 0x4c
        && header[3] == 0x46
}

/// What to do with the staged runtime before spawning from it.
pub enum RuntimePlan {
    /// The stamp matches and the extracted binary validates: use it as is.
    UseExisting,
    /// Anything else: remove the staged runtime and extract afresh.
    Refresh,
}

/// The refresh decision for one start: a current stamp and a validating
/// binary keep the extraction; a changed fingerprint or a failed
/// validation discards it.
pub fn prepare_runtime_plan(
    stamp_file: Option<&[u8]>,
    source: &SourceStamp,
    extracted_exists: bool,
    header: &[u8],
) -> (r: RuntimePlan)
    ensures
        ({
            let stale = match stamp_file {
                None => true,
                Some(c) => sp_trim(c@) != stamp_bytes(*source) || !extracted_exists,
            };
            let valid = header@.len() >= 4 && header@[0] == 0x7f && header@[1] == 0x45
                && header@[2] == 0x4c && header@[3] == 0x46;
            if !stale && valid {
                r is UseExisting
            } else {
                r is Refresh
            }
        }),
{
    if !needs_refresh(stamp_file, source, extracted_exists) && validate_sidecar_binary(header) {
        RuntimePlan::UseExisting
    } else {
        RuntimePlan::Refresh
    }
}

/// What a gzip archive decompresses to; a function of the bytes alone.
pub uninterp spec fn gunzip_of(data: Seq<u8>) -> Option<Seq<u8>>;

/// Relies on flate2's GzDecoder reading from an in-memory slice: the
/// decompressed bytes, or a decoding error, are determined by the input
/// bytes alone.
#[verifier::external_body]
pub fn gunzip(data: &[u8]) -> (r: Result<Vec<u8>, Vec<u8>>)
    ensures
        match r {
            Ok(out) => gunzip_of(data@) == Some(out@),
            Err(_) => gunzip_of(data@) is None,
        },
{
    let mut decoder = flate2::read::GzDecoder::new(data);
    let mut out = Vec::new();
    match std::io::Read::read_to_end(&mut decoder, &mut out) {
        Ok(_) => Ok(out),
        Err(e) => Err(format!("{}", e).into_bytes()),
    }
}

/// Extracts the packaged worker binary and checks its signature: the
/// archive must decompress and the result must carry the executable
/// signature, else the staged runtime is unusable.
pub fn extract_sidecar_binary(archive: &[u8]) -> (r: Option<Vec<u8>>)
    ensures
        match r {
            Some(bin) => gunzip_of(archive@) == Some(bin@) && bin@.len() >= 4 && bin@[0] == 0x7f
                && bin@[1] == 0x45 && bin@[2] == 0x4c && bin@[3] == 0x46,
            None => gunzip_of(archive@) is None || (gunzip_of(archive@) matches Some(b)
                && !(b.len() >= 4 && b[0] == 0x7f && b[1] == 0x45 && b[2] == 0x4c && b[3]
                == 0x46)),
        },
{
    let bin = match gunzip(archive) {
        Ok(b) => b,
        Err(_) => {
            return None;
        },
    };
    if validate_sidecar_binary(bin.as_slice()) {
        Some(bin)
    } else {
        None
    }
}

} // verus!
