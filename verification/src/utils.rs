//! Generated command and session identifiers.

use vstd::prelude::*;

verus! {

broadcast use vstd::seq::group_seq_axioms;

/// Hexadecimal digit for a nibble, lower case.
pub open spec fn hex_nibble(n: nat) -> u8 {
    if n < 10 {
        (0x30 + n) as u8
    } else {
        (0x57 + n) as u8
    }
}

/// `n` in hexadecimal, zero-padded to `width` digits (low digits last).
pub open spec fn hex_pad(n: nat, width: nat) -> Seq<u8>
    decreases width,
{
    if width == 0 {
        Seq::empty()
    } else {
        hex_pad(n / 16, (width - 1) as nat).push(hex_nibble(n % 16))
    }
}

/// The UUID-shaped identifier for a counter value: five dash-separated
/// hexadecimal groups of 8, 4, 4, 4 and 12 digits drawn from the counter.
pub open spec fn sp_uuid(counter: u64) -> Seq<u8> {
    hex_pad((counter as nat) / 0x100000000, 8) + seq![0x2du8] + hex_pad(
        ((counter as nat) / 0x10000) % 0x10000,
        4,
    ) + seq![0x2du8] + hex_pad(((counter as nat) / 0x100) % 0x10000, 4) + seq![0x2du8]
        + hex_pad((counter as nat) % 0x10000, 4) + seq![0x2du8] + hex_pad(counter as nat, 12)
}

/// Appends `n` as `width` hexadecimal digits.
fn push_hex(n: u64, width: u8, out: &mut Vec<u8>)
    ensures
        final(out)@ == old(out)@ + hex_pad(n as nat, width as nat),
    decreases width,
{
    if width == 0 {
        assert(final(out)@ =~= old(out)@ + hex_pad(n as nat, 0));
        return ;
    }
    let ghost pre = out@;
    push_hex(n / 16, width - 1, out);
    let d = (n % 16) as u8;
    out.push(if d < 10 { 0x30 + d } else { 0x57 + d });
    assert(final(out)@ =~= pre + hex_pad(n as nat, width as nat));
}

/// The identifier used to correlate commands and responses. Identifiers
/// are drawn from a process-wide counter the surrounding program owns; the
/// formatting here is exact, so distinct counters give distinct ids.
pub fn crypto_random_uuid(counter: u64) -> (r: Vec<u8>)
    ensures
        r@ == sp_uuid(counter),
{
    let mut out: Vec<u8> = Vec::new();
    push_hex(counter >> 32, 8, &mut out);
    out.push(0x2d);
    push_hex((counter >> 16) & 0xffff, 4, &mut out);
    out.push(0x2d);
    push_hex((counter >> 8) & 0xffff, 4, &mut out);
    out.push(0x2d);
    push_hex(counter & 0xffff, 4, &mut out);
    out.push(0x2d);
    push_hex(counter, 12, &mut out);
    proof {
        assert((counter >> 32) as nat == (counter as nat) / 0x100000000) by (bit_vector);
        assert(((counter >> 16) & 0xffff) as nat == ((counter as nat) / 0x10000) % 0x10000)
            by (bit_vector);
        assert(((counter >> 8) & 0xffff) as nat == ((counter as nat) / 0x100) % 0x10000)
            by (bit_vector);
        assert((counter & 0xffff) as nat == (counter as nat) % 0x10000) by (bit_vector);
    }
    assert(out@ =~= sp_uuid(counter));
    out
}

/// The required, non-blank session id for a session-scoped command: the
/// trimmed id, or the exact complaint naming the command.
pub fn require_session_id(session_id: &[u8], command: &[u8]) -> (r: Result<Vec<u8>, Vec<u8>>)
    ensures
        match r {
            Ok(sid) => sid@ == crate::handler::sp_trim(session_id@) && sid@.len() != 0,
            Err(msg) => crate::handler::sp_trim(session_id@).len() == 0 && msg@ == seq![
                // sessionId is required for
                0x73u8, 0x65, 0x73, 0x73, 0x69, 0x6f, 0x6e, 0x49, 0x64, 0x20, 0x69, 0x73,
                0x20, 0x72, 0x65, 0x71, 0x75, 0x69, 0x72, 0x65, 0x64, 0x20, 0x66, 0x6f,
                0x72, 0x20,
            ] + command@,
        },
{
    let trimmed = crate::handler::EventHandler::trim(session_id);
    if trimmed.len() == 0 {
        let mut msg = vec![
            0x73u8, 0x65, 0x73, 0x73, 0x69, 0x6f, 0x6e, 0x49, 0x64, 0x20, 0x69, 0x73, 0x20,
            0x72, 0x65, 0x71, 0x75, 0x69, 0x72, 0x65, 0x64, 0x20, 0x66, 0x6f, 0x72, 0x20,
        ];
        let ghost pre = msg@;
        crate::handler::append_bytes(&mut msg, command);
        Err(msg)
    } else {
        Ok(trimmed)
    }
}

} // verus!
