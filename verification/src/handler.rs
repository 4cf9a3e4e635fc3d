//! Sanitization of raw worker output: line reassembly, trimming, terminal
//! escape removal.
//!
//! Workers occasionally wrap their JSON in byte order marks, stray NUL
//! bytes, or ANSI/terminal escape sequences (CSI, OSC, DCS and friends).
//! Each unit is cleaned here before it is handed to the JSON reader; a unit
//! that still fails to parse is only ever logged, never forwarded.

use vstd::prelude::*;

use crate::frames::{sp_lines, sp_tail, sp_nl, strip_cr};
use crate::json::{is_ws_byte, rem, copy_range};

verus! {

broadcast use vstd::seq::group_seq_axioms;

// ---------------------------------------------------------------------------
// Trimming
// ---------------------------------------------------------------------------

/// Length of the whitespace run at the start, from `i`.
pub open spec fn ws_start(s: Seq<u8>, i: nat) -> nat
    decreases rem(s, i),
{
    if i < s.len() && is_ws_byte(s[i as int]) {
        (1 + ws_start(s, i + 1)) as nat
    } else {
        0
    }
}

/// Length of the whitespace run at the end.
pub open spec fn ws_end(s: Seq<u8>) -> nat
    decreases s.len(),
{
    if s.len() > 0 && is_ws_byte(s.last()) {
        (1 + ws_end(s.drop_last())) as nat
    } else {
        0
    }
}

/// Length of the NUL run at the start, from `i`.
pub open spec fn nul_start(s: Seq<u8>, i: nat) -> nat
    decreases rem(s, i),
{
    if i < s.len() && s[i as int] == 0x00 {
        (1 + nul_start(s, i + 1)) as nat
    } else {
        0
    }
}

/// Length of the NUL run at the end.
pub open spec fn nul_end(s: Seq<u8>) -> nat
    decreases s.len(),
{
    if s.len() > 0 && s.last() == 0x00 {
        (1 + nul_end(s.drop_last())) as nat
    } else {
        0
    }
}

/// `s` without leading and trailing ASCII whitespace.
pub open spec fn sp_trim(s: Seq<u8>) -> Seq<u8> {
    if ws_start(s, 0) == s.len() {
        Seq::empty()
    } else {
        s.subrange(ws_start(s, 0) as int, (s.len() - ws_end(s)) as int)
    }
}

/// `s` without leading and trailing NUL bytes.
pub open spec fn sp_trim_nul(s: Seq<u8>) -> Seq<u8> {
    if nul_start(s, 0) == s.len() {
        Seq::empty()
    } else {
        s.subrange(nul_start(s, 0) as int, (s.len() - nul_end(s)) as int)
    }
}

/// `s` without every leading UTF-8 byte order mark.
pub open spec fn sp_strip_boms(s: Seq<u8>) -> Seq<u8>
    decreases s.len(),
{
    if s.len() >= 3 && s[0] == 0xef && s[1] == 0xbb && s[2] == 0xbf {
        sp_strip_boms(s.skip(3))
    } else {
        s
    }
}

/// The full cleaning pass applied to a unit before parsing: whitespace trim,
/// then leading byte order marks, then stray NUL bytes at either end.
pub open spec fn sp_clean(s: Seq<u8>) -> Seq<u8> {
    sp_trim_nul(sp_strip_boms(sp_trim(s)))
}

// ---------------------------------------------------------------------------
// Terminal escape sequences
// ---------------------------------------------------------------------------

/// Cross-byte state of the escape-sequence scanner: outside any sequence,
/// after a bare ESC, inside a CSI / OSC / DCS-class sequence, or inside one
/// of the latter two having just seen an ESC (a possible string terminator).
pub enum AnsiState {
    Norm,
    Esc,
    Csi,
    Osc,
    OscEsc,
    Dcs,
    DcsEsc,
}

/// One step of the scanner.
pub open spec fn ansi_next(st: AnsiState, b: u8) -> AnsiState {
    match st {
        AnsiState::Norm => if b == 0x1b {
            AnsiState::Esc
        } else {
            AnsiState::Norm
        },
        AnsiState::Esc => if b == 0x5b {
            AnsiState::Csi
        } else if b == 0x5d {
            AnsiState::Osc
        } else if b == 0x50 || b == 0x58 || b == 0x5e || b == 0x5f {
            AnsiState::Dcs
        } else {
            AnsiState::Norm
        },
        AnsiState::Csi => if 0x40 <= b <= 0x7e {
            AnsiState::Norm
        } else {
            AnsiState::Csi
        },
        AnsiState::Osc => if b == 0x07 {
            AnsiState::Norm
        } else if b == 0x1b {
            AnsiState::OscEsc
        } else {
            AnsiState::Osc
        },
        AnsiState::OscEsc => if b == 0x5c || b == 0x07 {
            AnsiState::Norm
        } else if b == 0x1b {
            AnsiState::OscEsc
        } else {
            AnsiState::Osc
        },
        AnsiState::Dcs => if b == 0x1b {
            AnsiState::DcsEsc
        } else {
            AnsiState::Dcs
        },
        AnsiState::DcsEsc => if b == 0x5c {
            AnsiState::Norm
        } else if b == 0x1b {
            AnsiState::DcsEsc
        } else {
            AnsiState::Dcs
        },
    }
}

/// Whether the byte passes through to the output.
pub open spec fn ansi_emits(st: AnsiState, b: u8) -> bool {
    st is Norm && b != 0x1b
}

/// Everything the scanner emits from `i` on, starting in state `st`.
pub open spec fn sp_strip_ansi_from(s: Seq<u8>, i: nat, st: AnsiState) -> Seq<u8>
    decreases rem(s, i),
{
    if i >= s.len() {
        Seq::empty()
    } else {
        let b = s[i as int];
        let rest = sp_strip_ansi_from(s, i + 1, ansi_next(st, b));
        if ansi_emits(st, b) {
            seq![b] + rest
        } else {
            rest
        }
    }
}

/// `s` with every ANSI/terminal escape sequence removed.
pub open spec fn sp_strip_ansi(s: Seq<u8>) -> Seq<u8> {
    sp_strip_ansi_from(s, 0, AnsiState::Norm)
}

// ---------------------------------------------------------------------------
// Locating the outer object
// ---------------------------------------------------------------------------

/// Offset from `i` to the first occurrence of `b`.
pub open spec fn sp_find(s: Seq<u8>, i: nat, b: u8) -> Option<nat>
    decreases rem(s, i),
{
    if i >= s.len() {
        None
    } else if s[i as int] == b {
        Some(0)
    } else {
        match sp_find(s, i + 1, b) {
            Some(d) => Some((d + 1) as nat),
            None => None,
        }
    }
}

/// Index of the last occurrence of `b`.
pub open spec fn sp_rfind(s: Seq<u8>, b: u8) -> Option<nat>
    decreases s.len(),
{
    if s.len() == 0 {
        None
    } else if s.last() == b {
        Some((s.len() - 1) as nat)
    } else {
        sp_rfind(s.drop_last(), b)
    }
}

/// The span from the first `{` to the last `}`, when both exist in order.
pub open spec fn sp_candidate(s: Seq<u8>) -> Option<Seq<u8>> {
    match (sp_find(s, 0, 0x7b), sp_rfind(s, 0x7d)) {
        (Some(a), Some(e)) => if a <= e {
            Some(s.subrange(a as int, (e + 1) as int))
        } else {
            None
        },
        _ => None,
    }
}

/// A unit that already looks like a bare JSON object with no escape bytes.
pub open spec fn sp_probably_clean(s: Seq<u8>) -> bool {
    &&& s.len() > 0
    &&& s[0] == 0x7b
    &&& s.last() == 0x7d
    &&& forall|k: int| 0 <= k < s.len() ==> s[k] != 0x1b
}

/// What sanitizing one unit produces: a quick pass when the unit is already
/// clean, otherwise escape removal, cleaning, and the outer-object span.
pub open spec fn sp_sanitize(line: Seq<u8>) -> Seq<u8> {
    let quick = sp_clean(line);
    if sp_probably_clean(quick) {
        quick
    } else {
        let cleaned = sp_clean(sp_strip_ansi(line));
        match sp_candidate(cleaned) {
            Some(c) => c,
            None => cleaned,
        }
    }
}

/// Lines that are not entirely whitespace, in order.
pub open spec fn keep_nonblank(ls: Seq<Seq<u8>>) -> Seq<Seq<u8>>
    decreases ls.len(),
{
    if ls.len() == 0 {
        Seq::empty()
    } else if sp_trim(ls.last()).len() != 0 {
        keep_nonblank(ls.drop_last()).push(ls.last())
    } else {
        keep_nonblank(ls.drop_last())
    }
}

// ---------------------------------------------------------------------------
// The handler itself
// ---------------------------------------------------------------------------

/// Stateless holder of the output-sanitization steps.
pub struct EventHandler;

impl EventHandler {
    /// Splits a new chunk, together with the buffered partial line, into
    /// complete lines; the bytes after the last newline stay in `buffer`.
    pub fn extract_lines(chunk: &[u8], buffer: &mut Vec<u8>) -> (lines: Vec<Vec<u8>>)
        ensures
            lines.deep_view() == sp_lines(old(buffer)@ + chunk@),
            final(buffer)@ == sp_tail(old(buffer)@ + chunk@),
    {
        append_bytes(buffer, chunk);
        let ghost all = buffer@;
        let mut lines: Vec<Vec<u8>> = Vec::new();
        let mut i: usize = 0;
        assert(lines.deep_view() =~~= Seq::<Seq<u8>>::empty());
        loop
            invariant
                i <= all.len(),
                buffer@ == all,
                lines.deep_view() + crate::frames::sp_lines_at(all, i as nat) == sp_lines(all),
                crate::frames::sp_tail_at(all, i as nat) == sp_tail(all),
            ensures
                i <= all.len(),
                buffer@ == all,
                lines.deep_view() + crate::frames::sp_lines_at(all, i as nat) == sp_lines(all),
                crate::frames::sp_tail_at(all, i as nat) == sp_tail(all),
                sp_nl(all, i as nat) is None,
            decreases all.len() - i,
        {
            let n = buffer.len();
            let k = match Self::find_nl(buffer.as_slice(), i) {
                Some(k) => k,
                None => {
                    break ;
                },
            };
            assert(k < n);
            let mut line = copy_range(buffer.as_slice(), i, k);
            if line.len() > 0 && line[line.len() - 1] == 0x0d {
                line.pop();
                assert(line@ =~= strip_cr(all.subrange(i as int, k as int)));
            }
            assert(line@ == strip_cr(all.subrange(i as int, k as int)));
            let ghost pre = lines.deep_view();
            lines.push(line);
            proof {
                assert(lines.deep_view() =~~= pre.push(line@));
                assert(pre.push(line@) + crate::frames::sp_lines_at(all, (k + 1) as nat) =~= pre
                    + (seq![line@] + crate::frames::sp_lines_at(all, (k + 1) as nat)));
            }
            i = k + 1;
        }
        proof {
            assert(crate::frames::sp_lines_at(all, i as nat) =~= Seq::<Seq<u8>>::empty());
            assert(lines.deep_view() + Seq::<Seq<u8>>::empty() =~= lines.deep_view());
        }
        let rest = copy_range(buffer.as_slice(), i, buffer.len());
        assert(rest@ =~= crate::frames::sp_tail_at(all, i as nat));
        *buffer = rest;
        lines
    }

    /// Index of the first newline at or after `i`.
    fn find_nl(s: &[u8], i: usize) -> (r: Option<usize>)
        requires
            i <= s@.len(),
        ensures
            match r {
                Some(k) => i <= k < s@.len() && sp_nl(s@, i as nat) == Some((k - i) as nat),
                None => sp_nl(s@, i as nat) is None,
            },
    {
        proof {
            lemma_nl_is_find(s@, i as nat);
        }
        Self::find_byte(s, i, 0x0a)
    }

    /// Index of the first occurrence of `b` at or after `i`.
    pub fn find_byte(s: &[u8], i: usize, b: u8) -> (r: Option<usize>)
        requires
            i <= s@.len(),
        ensures
            match r {
                Some(k) => i <= k < s@.len() && crate::handler::sp_find(s@, i as nat, b) == Some(
                    (k - i) as nat,
                ),
                None => crate::handler::sp_find(s@, i as nat, b) is None,
            },
    {
        let mut j = i;
        while j < s.len()
            invariant
                i <= j <= s@.len(),
                sp_find(s@, i as nat, b) == match sp_find(s@, j as nat, b) {
                    Some(d) => Some((j - i + d) as nat),
                    None => None::<nat>,
                },
            decreases s@.len() - j,
        {
            if s[j] == b {
                return Some(j);
            }
            j += 1;
        }
        None
    }

    /// The buffered bytes of an unfinished last line, released as one final
    /// best-effort unit (with a trailing carriage return removed); the
    /// buffer is left empty.
    pub fn flush_buffer(buffer: &mut Vec<u8>) -> (r: Vec<u8>)
        ensures
            r@ == strip_cr(old(buffer)@),
            final(buffer)@ == Seq::<u8>::empty(),
    {
        let mut line = copy_range(buffer.as_slice(), 0, buffer.len());
        assert(line@ =~= buffer@);
        if line.len() > 0 && line[line.len() - 1] == 0x0d {
            line.pop();
            assert(line@ =~= strip_cr(buffer@));
        }
        buffer.clear();
        line
    }

    /// First non-whitespace position at or after `i`.
    fn scan_ws(s: &[u8], i: usize) -> (j: usize)
        requires
            i <= s@.len(),
        ensures
            i <= j <= s@.len(),
            j == i + ws_start(s@, i as nat),
    {
        let mut j = i;
        while j < s.len() && (s[j] == 0x20 || s[j] == 0x09 || s[j] == 0x0a || s[j] == 0x0d)
            invariant
                i <= j <= s@.len(),
                ws_start(s@, i as nat) == (j - i) + ws_start(s@, j as nat),
            decreases s@.len() - j,
        {
            j += 1;
        }
        j
    }

    /// Whether a unit is entirely whitespace (and so carries nothing).
    pub fn is_blank(s: &[u8]) -> (r: bool)
        ensures
            r == (sp_trim(s@).len() == 0),
    {
        let a = Self::scan_ws(s, 0);
        proof {
            lemma_ws_start_props(s@, 0);
            if a < s@.len() {
                lemma_ws_end_stops(s@, a as int);
            }
        }
        a == s.len()
    }

    /// Stderr chunks are split into lines exactly like stdout; blank lines
    /// are dropped, the rest are reported for the log.
    pub fn handle_stderr(chunk: &[u8], buffer: &mut Vec<u8>) -> (r: Vec<Vec<u8>>)
        ensures
            r.deep_view() == keep_nonblank(sp_lines(old(buffer)@ + chunk@)),
            final(buffer)@ == sp_tail(old(buffer)@ + chunk@),
    {
        let lines = Self::extract_lines(chunk, buffer);
        Self::drop_blank(lines)
    }

    /// The final stderr flush: the buffered bytes as one log line, unless
    /// blank.
    pub fn flush_stderr_buffer(buffer: &mut Vec<u8>) -> (r: Option<Vec<u8>>)
        ensures
            final(buffer)@ == Seq::<u8>::empty(),
            match r {
                Some(l) => l@ == strip_cr(old(buffer)@) && sp_trim(l@).len() != 0,
                None => sp_trim(strip_cr(old(buffer)@)).len() == 0,
            },
    {
        let line = Self::flush_buffer(buffer);
        if Self::is_blank(line.as_slice()) {
            None
        } else {
            Some(line)
        }
    }

    fn drop_blank(lines: Vec<Vec<u8>>) -> (r: Vec<Vec<u8>>)
        ensures
            r.deep_view() == keep_nonblank(lines.deep_view()),
    {
        let mut r: Vec<Vec<u8>> = Vec::new();
        let mut i: usize = 0;
        assert(r.deep_view() =~~= Seq::<Seq<u8>>::empty());
        assert(keep_nonblank(lines.deep_view().take(0)) =~= Seq::<Seq<u8>>::empty()) by {
            assert(lines.deep_view().take(0) =~= Seq::<Seq<u8>>::empty());
        }
        while i < lines.len()
            invariant
                i <= lines@.len(),
                lines.deep_view().len() == lines@.len(),
                forall|k: int| 0 <= k < lines@.len()
                    ==> lines.deep_view()[k] == #[trigger] lines@[k]@,
                r.deep_view() == keep_nonblank(lines.deep_view().take(i as int)),
            decreases lines@.len() - i,
        {
            let ghost prefix = lines.deep_view().take(i as int);
            assert(lines.deep_view().take(i as int + 1).drop_last() =~= prefix);
            assert(lines.deep_view().take(i as int + 1).last() == lines@[i as int]@);
            let ghost pre = r.deep_view();
            if !Self::is_blank(lines[i].as_slice()) {
                let l = Self::clone_bytes(&lines[i]);
                r.push(l);
                assert(r.deep_view() =~~= pre.push(lines@[i as int]@));
            }
            i += 1;
        }
        assert(lines.deep_view().take(lines@.len() as int) =~= lines.deep_view());
        r
    }

    /// An owned copy of a byte string.
    pub fn clone_bytes(v: &Vec<u8>) -> (r: Vec<u8>)
        ensures
            r@ == v@,
    {
        let r = copy_range(v.as_slice(), 0, v.len());
        assert(r@ =~= v@);
        r
    }
}

// ---------------------------------------------------------------------------
// Character counting (UTF-8 aware truncation)
// ---------------------------------------------------------------------------

/// A UTF-8 continuation byte.
pub open spec fn is_cont(b: u8) -> bool {
    0x80 <= b < 0xc0
}

/// Length of the continuation-byte run at `i`.
pub open spec fn cont_run(s: Seq<u8>, i: nat) -> nat
    decreases rem(s, i),
{
    if i < s.len() && is_cont(s[i as int]) {
        (1 + cont_run(s, i + 1)) as nat
    } else {
        0
    }
}

/// Number of encoded characters from `i` on: each character is one leading
/// byte and its continuation run.
pub open spec fn char_count(s: Seq<u8>, i: nat) -> nat
    decreases rem(s, i),
{
    if i >= s.len() {
        0
    } else {
        (1 + char_count(s, i + 1 + cont_run(s, i + 1))) as nat
    }
}

/// Byte length of the first `n` characters from `i`.
pub open spec fn chars_prefix(s: Seq<u8>, i: nat, n: nat) -> nat
    decreases rem(s, i),
{
    if i >= s.len() || n == 0 {
        0
    } else {
        let step = 1 + cont_run(s, i + 1);
        (step + chars_prefix(s, i + step, (n - 1) as nat)) as nat
    }
}

/// The ellipsis marker appended to truncated text.
pub open spec fn ellipsis() -> Seq<u8> {
    seq![0xe2, 0x80, 0xa6]
}

/// `s` cut to at most `max` characters, with an ellipsis appended when
/// anything was cut.
pub open spec fn sp_truncate(s: Seq<u8>, max: nat) -> Seq<u8> {
    if char_count(s, 0) <= max {
        s
    } else {
        s.take(chars_prefix(s, 0, max) as int) + ellipsis()
    }
}

/// The characters of the first `n` never cover more than all the bytes.
pub proof fn lemma_chars_prefix_bound(s: Seq<u8>, i: nat, n: nat)
    requires
        i <= s.len(),
    ensures
        i + chars_prefix(s, i, n) <= s.len(),
    decreases rem(s, i),
{
    if i < s.len() && n > 0 {
        lemma_cont_run_bound(s, i + 1);
        lemma_chars_prefix_bound(s, i + 1 + cont_run(s, i + 1), (n - 1) as nat);
    }
}

pub proof fn lemma_cont_run_bound(s: Seq<u8>, i: nat)
    requires
        i <= s.len(),
    ensures
        i + cont_run(s, i) <= s.len(),
    decreases rem(s, i),
{
    if i < s.len() && is_cont(s[i as int]) {
        lemma_cont_run_bound(s, i + 1);
    }
}

/// Appends a byte slice onto a buffer.
pub fn append_bytes(dst: &mut Vec<u8>, src: &[u8])
    ensures
        final(dst)@ == old(dst)@ + src@,
{
    let ghost orig = dst@;
    let mut k: usize = 0;
    assert(dst@ =~= orig + src@.take(0));
    while k < src.len()
        invariant
            k <= src@.len(),
            dst@ == orig + src@.take(k as int),
        decreases src@.len() - k,
    {
        dst.push(src[k]);
        k += 1;
        assert(dst@ =~= orig + src@.take(k as int));
    }
    assert(src@.take(src@.len() as int) =~= src@);
}

impl EventHandler {
    /// First position at or after `i` that is no continuation byte.
    fn scan_cont(s: &[u8], i: usize) -> (j: usize)
        requires
            i <= s@.len(),
        ensures
            j == i + cont_run(s@, i as nat),
            i <= j <= s@.len(),
    {
        let mut j = i;
        while j < s.len() && 0x80 <= s[j] && s[j] < 0xc0
            invariant
                i <= j <= s@.len(),
                cont_run(s@, i as nat) == (j - i) + cont_run(s@, j as nat),
            decreases s@.len() - j,
        {
            j += 1;
        }
        j
    }

    /// Number of encoded characters in `s`.
    pub fn count_chars(s: &[u8]) -> (r: usize)
        ensures
            r == char_count(s@, 0),
    {
        let mut i: usize = 0;
        let mut cnt: usize = 0;
        while i < s.len()
            invariant
                i <= s@.len(),
                cnt <= i,
                char_count(s@, 0) == cnt + char_count(s@, i as nat),
            decreases s@.len() - i,
        {
            let j = Self::scan_cont(s, i + 1);
            cnt += 1;
            i = j;
        }
        cnt
    }

    /// Byte length of the first `max` characters.
    fn prefix_bytes(s: &[u8], max: usize) -> (r: usize)
        ensures
            r == chars_prefix(s@, 0, max as nat),
            r <= s@.len(),
    {
        let mut i: usize = 0;
        let mut left = max;
        while left > 0 && i < s.len()
            invariant
                i <= s@.len(),
                left <= max,
                chars_prefix(s@, 0, max as nat) == i + chars_prefix(s@, i as nat, left as nat),
            decreases s@.len() - i, left,
        {
            let j = Self::scan_cont(s, i + 1);
            i = j;
            left -= 1;
        }
        i
    }

    /// `value` cut to at most `max_chars` characters; anything cut is marked
    /// with a trailing ellipsis.
    pub fn truncate_string(value: &[u8], max_chars: usize) -> (r: Vec<u8>)
        ensures
            r@ == sp_truncate(value@, max_chars as nat),
    {
        let total = Self::count_chars(value);
        if total <= max_chars {
            let r = copy_range(value, 0, value.len());
            assert(r@ =~= value@);
            r
        } else {
            let p = Self::prefix_bytes(value, max_chars);
            let mut r = copy_range(value, 0, p);
            r.push(0xe2);
            r.push(0x80);
            r.push(0xa6);
            assert(r@ =~= value@.take(chars_prefix(value@, 0, max_chars as nat) as int)
                + ellipsis());
            r
        }
    }

    /// The bounded preview of a unit used in log messages.
    pub fn shorten_for_log(value: &[u8], max_chars: usize) -> (r: Vec<u8>)
        ensures
            r@ == sp_truncate(value@, max_chars as nat),
    {
        Self::truncate_string(value, max_chars)
    }

    /// Whether the unit is already a bare object with no escape bytes.
    pub fn is_probably_clean_json_line(v: &[u8]) -> (r: bool)
        ensures
            r == sp_probably_clean(v@),
    {
        if v.len() == 0 || v[0] != 0x7b || v[v.len() - 1] != 0x7d {
            return false;
        }
        let mut i: usize = 0;
        while i < v.len()
            invariant
                i <= v@.len(),
                forall|k: int| 0 <= k < i ==> v@[k] != 0x1b,
            decreases v@.len() - i,
        {
            if v[i] == 0x1b {
                return false;
            }
            i += 1;
        }
        true
    }

    fn ansi_step(st: AnsiState, b: u8) -> (r: AnsiState)
        ensures
            r == ansi_next(st, b),
    {
        match st {
            AnsiState::Norm => if b == 0x1b {
                AnsiState::Esc
            } else {
                AnsiState::Norm
            },
            AnsiState::Esc => if b == 0x5b {
                AnsiState::Csi
            } else if b == 0x5d {
                AnsiState::Osc
            } else if b == 0x50 || b == 0x58 || b == 0x5e || b == 0x5f {
                AnsiState::Dcs
            } else {
                AnsiState::Norm
            },
            AnsiState::Csi => if 0x40 <= b && b <= 0x7e {
                AnsiState::Norm
            } else {
                AnsiState::Csi
            },
            AnsiState::Osc => if b == 0x07 {
                AnsiState::Norm
            } else if b == 0x1b {
                AnsiState::OscEsc
            } else {
                AnsiState::Osc
            },
            AnsiState::OscEsc => if b == 0x5c || b == 0x07 {
                AnsiState::Norm
            } else if b == 0x1b {
                AnsiState::OscEsc
            } else {
                AnsiState::Osc
            },
            AnsiState::Dcs => if b == 0x1b {
                AnsiState::DcsEsc
            } else {
                AnsiState::Dcs
            },
            AnsiState::DcsEsc => if b == 0x5c {
                AnsiState::Norm
            } else if b == 0x1b {
                AnsiState::DcsEsc
            } else {
                AnsiState::Dcs
            },
        }
    }

    /// Removes ANSI/terminal escape sequences (CSI, OSC, DCS/SOS/PM/APC and
    /// single-introducer escapes).
    pub fn strip_ansi_escapes(input: &[u8]) -> (r: Vec<u8>)
        ensures
            r@ == sp_strip_ansi(input@),
    {
        let mut out: Vec<u8> = Vec::new();
        let mut st = AnsiState::Norm;
        let mut i: usize = 0;
        assert(out@ + sp_strip_ansi_from(input@, 0, AnsiState::Norm) =~= sp_strip_ansi(input@));
        while i < input.len()
            invariant
                i <= input@.len(),
                out@ + sp_strip_ansi_from(input@, i as nat, st) == sp_strip_ansi(input@),
            decreases input@.len() - i,
        {
            let b = input[i];
            let ghost pre = out@;
            let ghost stg = st;
            let emit = match st {
                AnsiState::Norm => b != 0x1b,
                _ => false,
            };
            if emit {
                out.push(b);
            }
            st = Self::ansi_step(st, b);
            i += 1;
            proof {
                if ansi_emits(stg, b) {
                    assert(out@ =~= pre.push(b));
                    assert(pre.push(b) + sp_strip_ansi_from(input@, i as nat, st) =~= pre + (
                    seq![b] + sp_strip_ansi_from(input@, i as nat, st)));
                }
            }
        }
        assert(sp_strip_ansi_from(input@, input@.len(), st) =~= Seq::<u8>::empty());
        assert(out@ + Seq::<u8>::empty() =~= out@);
        out
    }

    /// Index of the last occurrence of `b`.
    fn rfind_byte(s: &[u8], b: u8) -> (r: Option<usize>)
        ensures
            match r {
                Some(k) => k < s@.len() && sp_rfind(s@, b) == Some(k as nat),
                None => sp_rfind(s@, b) is None,
            },
    {
        let mut j = s.len();
        assert(s@.take(j as int) =~= s@);
        while j > 0
            invariant
                j <= s@.len(),
                sp_rfind(s@, b) == sp_rfind(s@.take(j as int), b),
            decreases j,
        {
            assert(s@.take(j as int).last() == s@[j - 1]);
            assert(s@.take(j as int).drop_last() =~= s@.take(j - 1));
            if s[j - 1] == b {
                return Some(j - 1);
            }
            j -= 1;
        }
        assert(s@.take(0) =~= Seq::<u8>::empty());
        None
    }

    /// The span from the first `{` to the last `}`, when both exist in
    /// order; the likeliest JSON object inside decorated output.
    pub fn extract_json_object_candidate(input: &[u8]) -> (r: Option<Vec<u8>>)
        ensures
            match r {
                Some(c) => sp_candidate(input@) == Some(c@),
                None => sp_candidate(input@) is None,
            },
    {
        let a = match Self::find_byte(input, 0, 0x7b) {
            Some(a) => a,
            None => {
                return None;
            },
        };
        let e = match Self::rfind_byte(input, 0x7d) {
            Some(e) => e,
            None => {
                return None;
            },
        };
        let n = input.len();
        assert(e < n);
        if a <= e {
            Some(copy_range(input, a, e + 1))
        } else {
            None
        }
    }

    /// ASCII whitespace trim.
    pub fn trim(s: &[u8]) -> (r: Vec<u8>)
        ensures
            r@ == sp_trim(s@),
    {
        let a = Self::scan_ws(s, 0);
        if a == s.len() {
            let r = Vec::new();
            assert(r@ =~= sp_trim(s@));
            return r;
        }
        proof {
            lemma_ws_start_props(s@, 0);
            lemma_ws_end_stops(s@, a as int);
        }
        let mut j = s.len();
        assert(s@.take(j as int) =~= s@);
        while j > 0 && s[j - 1] == 0x20 || j > 0 && s[j - 1] == 0x09 || j > 0 && s[j - 1] == 0x0a
            || j > 0 && s[j - 1] == 0x0d
            invariant
                j <= s@.len(),
                ws_end(s@) == (s@.len() - j) + ws_end(s@.take(j as int)),
            decreases j,
        {
            assert(s@.take(j as int).last() == s@[j - 1]);
            assert(s@.take(j as int).drop_last() =~= s@.take(j - 1));
            j -= 1;
        }
        assert(ws_end(s@.take(j as int)) == 0) by {
            if j > 0 {
                assert(s@.take(j as int).last() == s@[j - 1]);
            }
        }
        assert(a < j) by {
            lemma_ws_end_stops(s@, a as int);
        }
        copy_range(s, a, j)
    }

    /// NUL trim.
    pub fn trim_nul(s: &[u8]) -> (r: Vec<u8>)
        ensures
            r@ == sp_trim_nul(s@),
    {
        let a = Self::scan_nul(s, 0);
        if a == s.len() {
            let r = Vec::new();
            assert(r@ =~= sp_trim_nul(s@));
            return r;
        }
        proof {
            lemma_nul_start_props(s@, 0);
            lemma_nul_end_stops(s@, a as int);
        }
        let mut j = s.len();
        assert(s@.take(j as int) =~= s@);
        while j > 0 && s[j - 1] == 0x00
            invariant
                j <= s@.len(),
                nul_end(s@) == (s@.len() - j) + nul_end(s@.take(j as int)),
            decreases j,
        {
            assert(s@.take(j as int).last() == s@[j - 1]);
            assert(s@.take(j as int).drop_last() =~= s@.take(j - 1));
            j -= 1;
        }
        assert(nul_end(s@.take(j as int)) == 0) by {
            if j > 0 {
                assert(s@.take(j as int).last() == s@[j - 1]);
            }
        }
        assert(a < j) by {
            lemma_nul_end_stops(s@, a as int);
        }
        copy_range(s, a, j)
    }

    /// First position at or after `i` that holds no NUL.
    fn scan_nul(s: &[u8], i: usize) -> (j: usize)
        requires
            i <= s@.len(),
        ensures
            i <= j <= s@.len(),
            j == i + nul_start(s@, i as nat),
    {
        let mut j = i;
        while j < s.len() && s[j] == 0x00
            invariant
                i <= j <= s@.len(),
                nul_start(s@, i as nat) == (j - i) + nul_start(s@, j as nat),
            decreases s@.len() - j,
        {
            j += 1;
        }
        j
    }

    /// Drops every leading UTF-8 byte order mark.
    pub fn strip_boms(s: &[u8]) -> (r: Vec<u8>)
        ensures
            r@ == sp_strip_boms(s@),
    {
        let mut i: usize = 0;
        assert(s@.skip(0) =~= s@);
        while s.len() - i >= 3 && s[i] == 0xef && s[i + 1] == 0xbb && s[i + 2] == 0xbf
            invariant
                i <= s@.len(),
                sp_strip_boms(s@) == sp_strip_boms(s@.skip(i as int)),
            decreases s@.len() - i,
        {
            proof {
                assert(s@.skip(i as int)[0] == s@[i as int]);
                assert(s@.skip(i as int)[1] == s@[i as int + 1]);
                assert(s@.skip(i as int)[2] == s@[i as int + 2]);
                assert(s@.skip(i as int).skip(3) =~= s@.skip(i as int + 3));
            }
            i += 3;
        }
        let r = copy_range(s, i, s.len());
        assert(r@ =~= s@.skip(i as int));
        r
    }

    /// The full cleaning pass applied to every unit before parsing.
    pub fn clean(s: &[u8]) -> (r: Vec<u8>)
        ensures
            r@ == sp_clean(s@),
    {
        let t = Self::trim(s);
        let u = Self::strip_boms(t.as_slice());
        Self::trim_nul(u.as_slice())
    }

    /// Sanitizes one unit: a quick pass when it is already clean, otherwise
    /// escape removal, cleaning, and the outer-object span.
    pub fn sanitize_json_line(line: &[u8]) -> (r: Vec<u8>)
        ensures
            r@ == sp_sanitize(line@),
    {
        let quick = Self::clean(line);
        if Self::is_probably_clean_json_line(quick.as_slice()) {
            return quick;
        }
        let stripped = Self::strip_ansi_escapes(line);
        let cleaned = Self::clean(stripped.as_slice());
        match Self::extract_json_object_candidate(cleaned.as_slice()) {
            Some(c) => c,
            None => cleaned,
        }
    }
}

/// The leading NUL run stops at the first other byte.
pub proof fn lemma_nul_start_props(s: Seq<u8>, i: nat)
    requires
        i <= s.len(),
    ensures
        i + nul_start(s, i) <= s.len(),
        i + nul_start(s, i) < s.len() ==> s[(i + nul_start(s, i)) as int] != 0x00,
    decreases rem(s, i),
{
    if i < s.len() && s[i as int] == 0x00 {
        lemma_nul_start_props(s, i + 1);
    }
}

/// The trailing NUL run stops at any other byte.
pub proof fn lemma_nul_end_stops(s: Seq<u8>, a: int)
    requires
        0 <= a < s.len(),
        s[a] != 0x00,
    ensures
        nul_end(s) < s.len() - a,
    decreases s.len(),
{
    if s.len() > 0 && s.last() == 0x00 {
        lemma_nul_end_stops(s.drop_last(), a);
    }
}

/// The newline search is the byte search for the newline byte.
pub proof fn lemma_nl_is_find(s: Seq<u8>, i: nat)
    ensures
        sp_nl(s, i) == sp_find(s, i, 0x0a),
    decreases rem(s, i),
{
    if i < s.len() && s[i as int] != 0x0a {
        lemma_nl_is_find(s, i + 1);
    }
}

/// The leading whitespace run stops at the first non-whitespace byte.
pub proof fn lemma_ws_start_props(s: Seq<u8>, i: nat)
    requires
        i <= s.len(),
    ensures
        i + ws_start(s, i) <= s.len(),
        i + ws_start(s, i) < s.len() ==> !is_ws_byte(s[(i + ws_start(s, i)) as int]),
    decreases rem(s, i),
{
    if i < s.len() && is_ws_byte(s[i as int]) {
        lemma_ws_start_props(s, i + 1);
    }
}

/// The trailing whitespace run stops at any non-whitespace byte.
pub proof fn lemma_ws_end_stops(s: Seq<u8>, a: int)
    requires
        0 <= a < s.len(),
        !is_ws_byte(s[a]),
    ensures
        ws_end(s) < s.len() - a,
    decreases s.len(),
{
    if s.len() > 0 && is_ws_byte(s.last()) {
        lemma_ws_end_stops(s.drop_last(), a);
    }
}

} // verus!
