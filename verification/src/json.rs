//! JSON value model, reader and writer.
//!
//! The worker's wire protocol is one JSON object per line. Strings are kept
//! as raw bytes (UTF-8 on the wire); numbers keep their literal text unless
//! they are integers that fit in an `i64`.

use vstd::prelude::*;

verus! {

broadcast use
    vstd::std_specs::vec::axiom_vec_decreases_to_view,
    vstd::std_specs::vec::axiom_vec_index_decreases,
    vstd::seq::axiom_seq_index_decreases,
    vstd::seq::axiom_seq_subrange_decreases,
    vstd::seq::group_seq_axioms;

/// Mathematical model of a JSON value.
#[verifier::ext_equal]
pub enum JsonV {
    Null,
    Bool(bool),
    /// An integer literal whose value fits in `i64`.
    Int(int),
    /// Any other number literal, kept as its exact source text.
    Num(Seq<u8>),
    Str(Seq<u8>),
    Arr(Seq<JsonV>),
    Obj(Seq<(Seq<u8>, JsonV)>),
}

/// A JSON value as held at run time.
pub enum Json {
    Null,
    Bool(bool),
    Int(i64),
    Num(Vec<u8>),
    Str(Vec<u8>),
    Arr(Vec<Json>),
    Obj(Vec<(Vec<u8>, Json)>),
}

pub open spec fn jview(j: Json) -> JsonV
    decreases j,
{
    match j {
        Json::Null => JsonV::Null,
        Json::Bool(b) => JsonV::Bool(b),
        Json::Int(n) => JsonV::Int(n as int),
        Json::Num(t) => JsonV::Num(t@),
        Json::Str(t) => JsonV::Str(t@),
        Json::Arr(items) => JsonV::Arr(jview_seq(items@)),
        Json::Obj(pairs) => JsonV::Obj(jview_pairs(pairs@)),
    }
}

pub open spec fn jview_seq(s: Seq<Json>) -> Seq<JsonV>
    decreases s,
{
    if s.len() == 0 {
        Seq::empty()
    } else {
        jview_seq(s.drop_last()).push(jview(s.last()))
    }
}

pub open spec fn jview_pairs(s: Seq<(Vec<u8>, Json)>) -> Seq<(Seq<u8>, JsonV)>
    decreases s,
{
    if s.len() == 0 {
        Seq::empty()
    } else {
        jview_pairs(s.drop_last()).push((s.last().0@, jview(s.last().1)))
    }
}

/// `jview_seq` is the element-wise view.
pub proof fn lemma_jview_seq(s: Seq<Json>)
    ensures
        jview_seq(s).len() == s.len(),
        forall|i: int| 0 <= i < s.len() ==> #[trigger] jview_seq(s)[i] == jview(s[i]),
    decreases s.len(),
{
    if s.len() > 0 {
        lemma_jview_seq(s.drop_last());
    }
}

/// `jview_pairs` is the pair-wise view.
pub proof fn lemma_jview_pairs(s: Seq<(Vec<u8>, Json)>)
    ensures
        jview_pairs(s).len() == s.len(),
        forall|i: int| 0 <= i < s.len()
            ==> #[trigger] jview_pairs(s)[i] == (s[i].0@, jview(s[i].1)),
    decreases s.len(),
{
    if s.len() > 0 {
        lemma_jview_pairs(s.drop_last());
    }
}

impl View for Json {
    type V = JsonV;

    open spec fn view(&self) -> JsonV {
        jview(*self)
    }
}

/// Last-match lookup in an object's pair list: a later duplicate key wins,
/// as it would when the pairs are folded into a map.
pub open spec fn obj_get(pairs: Seq<(Seq<u8>, JsonV)>, key: Seq<u8>) -> Option<JsonV>
    decreases pairs.len(),
{
    if pairs.len() == 0 {
        None
    } else if pairs.last().0 == key {
        Some(pairs.last().1)
    } else {
        obj_get(pairs.drop_last(), key)
    }
}

/// What `get` means on a whole value: key lookup on objects, nothing else.
pub open spec fn jget(v: JsonV, key: Seq<u8>) -> Option<JsonV> {
    match v {
        JsonV::Obj(pairs) => obj_get(pairs, key),
        _ => None,
    }
}


impl Json {
    /// A deep copy.
    #[verifier::loop_isolation(false)]
    pub fn clone_value(&self) -> (r: Json)
        ensures
            r@ == self@,
        decreases self,
    {
        match self {
            Json::Null => Json::Null,
            Json::Bool(b) => Json::Bool(*b),
            Json::Int(n) => Json::Int(*n),
            Json::Num(t) => Json::Num(copy_range(t.as_slice(), 0, t.len())),
            Json::Str(t) => Json::Str(copy_range(t.as_slice(), 0, t.len())),
            Json::Arr(items) => {
                let mut out: Vec<Json> = Vec::new();
                let mut i: usize = 0;
                proof {
                    lemma_jview_seq(items@);
                    lemma_jview_seq(out@);
                    assert(jview_seq(out@) =~= jview_seq(items@).take(0));
                }
                while i < items.len()
                    invariant
                        i <= items@.len(),
                        jview_seq(items@).len() == items@.len(),
                        forall|k: int| 0 <= k < items@.len()
                            ==> #[trigger] jview_seq(items@)[k] == jview(items@[k]),
                        jview_seq(out@) == jview_seq(items@).take(i as int),
                    decreases items@.len() - i,
                {
                    proof {
                        assert(decreases_to!(*self => items@[i as int])) by {
                            assert(decreases_to!(*self => *items));
                            assert(decreases_to!(*items => items@));
                            assert(decreases_to!(items@ => items@[i as int]));
                        }
                    }
                    let c = Self::clone_value(&items[i]);
                    let ghost pre = out@;
                    out.push(c);
                    proof {
                        assert(out@.drop_last() =~= pre);
                        lemma_jview_seq_push(pre, out@.last());
                        assert(pre.push(out@.last()) =~= out@);
                        assert(jview_seq(items@).take(i + 1) =~= jview_seq(items@).take(
                            i as int,
                        ).push(jview(items@[i as int])));
                    }
                    i += 1;
                }
                assert(jview_seq(items@).take(items@.len() as int) =~= jview_seq(items@));
                Json::Arr(out)
            },
            Json::Obj(pairs) => {
                let mut out: Vec<(Vec<u8>, Json)> = Vec::new();
                let mut i: usize = 0;
                proof {
                    lemma_jview_pairs(pairs@);
                    lemma_jview_pairs(out@);
                    assert(jview_pairs(out@) =~= jview_pairs(pairs@).take(0));
                }
                while i < pairs.len()
                    invariant
                        i <= pairs@.len(),
                        jview_pairs(pairs@).len() == pairs@.len(),
                        forall|k: int| 0 <= k < pairs@.len()
                            ==> #[trigger] jview_pairs(pairs@)[k] == (
                            pairs@[k].0@,
                            jview(pairs@[k].1),
                        ),
                        jview_pairs(out@) == jview_pairs(pairs@).take(i as int),
                    decreases pairs@.len() - i,
                {
                    let k = copy_range(pairs[i].0.as_slice(), 0, pairs[i].0.len());
                    assert(k@ =~= pairs@[i as int].0@);
                    proof {
                        assert(decreases_to!(*self => pairs@[i as int].1)) by {
                            assert(decreases_to!(*self => *pairs));
                            assert(decreases_to!(*pairs => pairs@));
                            assert(decreases_to!(pairs@ => pairs@[i as int]));
                            assert(decreases_to!(pairs@[i as int] => pairs@[i as int].1));
                        }
                    }
                    let c = Self::clone_value(&pairs[i].1);
                    let ghost pre = out@;
                    out.push((k, c));
                    proof {
                        assert(out@.drop_last() =~= pre);
                        lemma_jview_pairs_push(pre, out@.last().0, out@.last().1);
                        assert(pre.push((out@.last().0, out@.last().1)) =~= out@);
                        assert(jview_pairs(pairs@).take(i + 1) =~= jview_pairs(pairs@).take(
                            i as int,
                        ).push((pairs@[i as int].0@, jview(pairs@[i as int].1))));
                    }
                    i += 1;
                }
                assert(jview_pairs(pairs@).take(pairs@.len() as int) =~= jview_pairs(pairs@));
                Json::Obj(out)
            },
        }
    }
}

/// `pairs` with the value under `key` replaced in place (the last
/// occurrence, the one `obj_get` sees), or appended when absent.
pub open spec fn obj_set(pairs: Seq<(Seq<u8>, JsonV)>, key: Seq<u8>, v: JsonV) -> Seq<
    (Seq<u8>, JsonV),
>
    decreases pairs.len(),
{
    if pairs.len() == 0 {
        seq![(key, v)]
    } else if pairs.last().0 == key {
        pairs.drop_last().push((key, v))
    } else if obj_get(pairs.drop_last(), key) is Some {
        obj_set(pairs.drop_last(), key, v).push(pairs.last())
    } else {
        pairs.push((key, v))
    }
}

/// Setting then getting the same key finds the new value; other keys are
/// untouched.
pub proof fn lemma_obj_set_get(pairs: Seq<(Seq<u8>, JsonV)>, key: Seq<u8>, v: JsonV, k2: Seq<u8>)
    ensures
        obj_get(obj_set(pairs, key, v), key) == Some(v),
        k2 != key ==> obj_get(obj_set(pairs, key, v), k2) == obj_get(pairs, k2),
    decreases pairs.len(),
{
    reveal_with_fuel(obj_get, 3);
    if pairs.len() == 0 {
        assert(obj_set(pairs, key, v).last() == (key, v));
        assert(obj_set(pairs, key, v).drop_last() =~= Seq::<(Seq<u8>, JsonV)>::empty());
    } else if pairs.last().0 == key {
        assert(obj_set(pairs, key, v).last() == (key, v));
        assert(obj_set(pairs, key, v).drop_last() =~= pairs.drop_last());
    } else if obj_get(pairs.drop_last(), key) is Some {
        lemma_obj_set_get(pairs.drop_last(), key, v, k2);
        assert(obj_set(pairs, key, v).last() == pairs.last());
        assert(obj_set(pairs, key, v).drop_last() =~= obj_set(pairs.drop_last(), key, v));
    } else {
        assert(obj_set(pairs, key, v).last() == (key, v));
        assert(obj_set(pairs, key, v).drop_last() =~= pairs);
    }
}

/// Where the key occurs, `obj_set` is a pointwise update of its last
/// occurrence; where it does not, it is a push.
pub proof fn lemma_obj_set_shape(pairs: Seq<(Seq<u8>, JsonV)>, key: Seq<u8>, v: JsonV, idx: int)
    requires
        0 <= idx < pairs.len(),
        pairs[idx].0 == key,
        forall|k: int| idx < k < pairs.len() ==> pairs[k].0 != key,
    ensures
        obj_set(pairs, key, v) == pairs.update(idx, (key, v)),
    decreases pairs.len(),
{
    if pairs.last().0 == key {
        assert(idx == pairs.len() - 1);
        assert(pairs.drop_last().push((key, v)) =~= pairs.update(idx, (key, v)));
    } else {
        lemma_obj_set_shape(pairs.drop_last(), key, v, idx);
        lemma_obj_get_present(pairs.drop_last(), key, idx);
        assert(obj_set(pairs.drop_last(), key, v).push(pairs.last()) =~= pairs.update(
            idx,
            (key, v),
        ));
    }
}

/// A key that occurs is found.
pub proof fn lemma_obj_get_present(pairs: Seq<(Seq<u8>, JsonV)>, key: Seq<u8>, idx: int)
    requires
        0 <= idx < pairs.len(),
        pairs[idx].0 == key,
    ensures
        obj_get(pairs, key) is Some,
    decreases pairs.len(),
{
    if pairs.last().0 != key {
        lemma_obj_get_present(pairs.drop_last(), key, idx);
    }
}

/// Where the key is absent, `obj_set` is a push.
pub proof fn lemma_obj_set_absent(pairs: Seq<(Seq<u8>, JsonV)>, key: Seq<u8>, v: JsonV)
    requires
        forall|k: int| 0 <= k < pairs.len() ==> pairs[k].0 != key,
    ensures
        obj_set(pairs, key, v) == pairs.push((key, v)),
{
    if pairs.len() == 0 {
        assert(seq![(key, v)] =~= pairs.push((key, v)));
    } else {
        lemma_obj_get_none(pairs.drop_last(), key);
    }
}

/// A key that occurs nowhere is not found.
pub proof fn lemma_obj_get_none(pairs: Seq<(Seq<u8>, JsonV)>, key: Seq<u8>)
    requires
        forall|k: int| 0 <= k < pairs.len() ==> pairs[k].0 != key,
    ensures
        obj_get(pairs, key) is None,
    decreases pairs.len(),
{
    if pairs.len() > 0 {
        lemma_obj_get_none(pairs.drop_last(), key);
    }
}

impl Json {
    /// The object with `key` set to `v`: replaced in place when present,
    /// appended when absent. Anything but an object is returned unchanged.
    pub fn with_key(&self, key: &[u8], v: Json) -> (r: Json)
        ensures
            self@ matches JsonV::Obj(pairs) ==> r@ == JsonV::Obj(obj_set(pairs, key@, v@)),
            !(self@ is Obj) ==> r@ == self@,
    {
        match self {
            Json::Obj(pairs) => {
                proof {
                    lemma_jview_pairs(pairs@);
                }
                let ghost pv = jview_pairs(pairs@);
                // find the last occurrence of the key
                let mut found: Option<usize> = None;
                let mut j = pairs.len();
                while j > 0 && matches!(found, None)
                    invariant
                        j <= pairs@.len(),
                        pv.len() == pairs@.len(),
                        forall|k: int| 0 <= k < pairs@.len()
                            ==> #[trigger] pv[k] == (pairs@[k].0@, jview(pairs@[k].1)),
                        match found {
                            None => forall|k: int| j <= k < pairs@.len() ==> pv[k].0 != key@,
                            Some(idx) => idx < pairs@.len() && pv[idx as int].0 == key@
                                && forall|k: int| idx < k < pairs@.len() ==> pv[k].0 != key@,
                        },
                    decreases j, (if found is None { 1int } else { 0int }),
                {
                    if bytes_eq(pairs[j - 1].0.as_slice(), key) {
                        found = Some(j - 1);
                    } else {
                        j -= 1;
                    }
                }
                match found {
                    Some(idx) => {
                        let mut np = self.clone_obj_pairs(pairs);
                        let kcopy = copy_range(key, 0, key.len());
                        assert(kcopy@ =~= key@);
                        np[idx] = (kcopy, v);
                        proof {
                            lemma_jview_pairs(np@);
                            lemma_obj_set_shape(pv, key@, v@, idx as int);
                            assert(jview_pairs(np@) =~= pv.update(idx as int, (key@, v@)));
                        }
                        Json::Obj(np)
                    },
                    None => {
                        let mut np = self.clone_obj_pairs(pairs);
                        let kcopy = copy_range(key, 0, key.len());
                        assert(kcopy@ =~= key@);
                        np.push((kcopy, v));
                        proof {
                            lemma_jview_pairs(np@);
                            lemma_obj_set_absent(pv, key@, v@);
                            assert(jview_pairs(np@) =~= pv.push((key@, v@)));
                        }
                        Json::Obj(np)
                    },
                }
            },
            _ => self.clone_value(),
        }
    }

    /// A deep copy of an object's pair list.
    fn clone_obj_pairs(&self, pairs: &Vec<(Vec<u8>, Json)>) -> (r: Vec<(Vec<u8>, Json)>)
        ensures
            r@.len() == pairs@.len(),
            forall|k: int| 0 <= k < pairs@.len() ==> #[trigger] r@[k].0@ == pairs@[k].0@
                && r@[k].1@ == pairs@[k].1@,
    {
        let mut out: Vec<(Vec<u8>, Json)> = Vec::new();
        let mut i: usize = 0;
        while i < pairs.len()
            invariant
                i <= pairs@.len(),
                out@.len() == i,
                forall|k: int| 0 <= k < i ==> #[trigger] out@[k].0@ == pairs@[k].0@
                    && out@[k].1@ == pairs@[k].1@,
            decreases pairs@.len() - i,
        {
            let k = copy_range(pairs[i].0.as_slice(), 0, pairs[i].0.len());
            assert(k@ =~= pairs@[i as int].0@);
            let c = pairs[i].1.clone_value();
            out.push((k, c));
            i += 1;
        }
        out
    }
}


/// Pushes one member onto an object's pair list.
pub fn push_pair(pairs: &mut Vec<(Vec<u8>, Json)>, key: Vec<u8>, value: Json)
    ensures
        jview_pairs(final(pairs)@) == jview_pairs(old(pairs)@).push((key@, value@)),
{
    pairs.push((key, value));
    proof {
        assert(pairs@.drop_last() =~= old(pairs)@);
        lemma_jview_pairs_push(pairs@.drop_last(), pairs@.last().0, pairs@.last().1);
        assert(pairs@.drop_last().push((pairs@.last().0, pairs@.last().1)) =~= pairs@);
    }
}


/// `pairs` with every member under `key` removed.
pub open spec fn obj_remove(pairs: Seq<(Seq<u8>, JsonV)>, key: Seq<u8>) -> Seq<(Seq<u8>, JsonV)>
    decreases pairs.len(),
{
    if pairs.len() == 0 {
        pairs
    } else if pairs.last().0 == key {
        obj_remove(pairs.drop_last(), key)
    } else {
        obj_remove(pairs.drop_last(), key).push(pairs.last())
    }
}

impl Json {
    /// The object without the member under `key`; anything but an object is
    /// returned unchanged.
    #[verifier::loop_isolation(false)]
    pub fn without_key(&self, key: &[u8]) -> (r: Json)
        ensures
            self@ matches JsonV::Obj(pairs) ==> r@ == JsonV::Obj(obj_remove(pairs, key@)),
            !(self@ is Obj) ==> r@ == self@,
    {
        match self {
            Json::Obj(pairs) => {
                proof {
                    lemma_jview_pairs(pairs@);
                }
                let ghost pv = jview_pairs(pairs@);
                let mut out: Vec<(Vec<u8>, Json)> = Vec::new();
                let mut i: usize = 0;
                proof {
                    lemma_jview_pairs(out@);
                    assert(jview_pairs(out@) =~= obj_remove(pv.take(0), key@));
                }
                while i < pairs.len()
                    invariant
                        i <= pairs@.len(),
                        jview_pairs(out@) == obj_remove(pv.take(i as int), key@),
                    decreases pairs@.len() - i,
                {
                    proof {
                        assert(pv.take(i + 1).drop_last() =~= pv.take(i as int));
                        assert(pv.take(i + 1).last() == pv[i as int]);
                    }
                    if !bytes_eq(pairs[i].0.as_slice(), key) {
                        let k = copy_range(pairs[i].0.as_slice(), 0, pairs[i].0.len());
                        assert(k@ =~= pairs@[i as int].0@);
                        let c = pairs[i].1.clone_value();
                        let ghost pre = jview_pairs(out@);
                        push_pair(&mut out, k, c);
                    }
                    i += 1;
                }
                assert(pv.take(pairs@.len() as int) =~= pv);
                Json::Obj(out)
            },
            _ => self.clone_value(),
        }
    }
}

// ---------------------------------------------------------------------------
// The grammar, as specification functions.
//
// Every scanning function takes an absolute start index. A function that can
// only succeed by consuming at least one byte reports, on success, the number
// of bytes consumed minus one, so that the end index `i + 1 + m` is strictly
// past `i` by construction; termination of the mutually recursive productions
// follows from that alone.
// ---------------------------------------------------------------------------

/// JSON insignificant whitespace.
pub open spec fn is_ws_byte(b: u8) -> bool {
    b == 0x20 || b == 0x09 || b == 0x0a || b == 0x0d
}

pub open spec fn is_digit(b: u8) -> bool {
    0x30 <= b <= 0x39
}

/// Bytes left from `i` on, clamped at zero.
pub open spec fn rem(s: Seq<u8>, i: nat) -> nat {
    if i <= s.len() {
        (s.len() - i) as nat
    } else {
        0
    }
}

/// Length of the whitespace run starting at `i`.
pub open spec fn sp_ws(s: Seq<u8>, i: nat) -> nat
    decreases rem(s, i),
{
    if i < s.len() && is_ws_byte(s[i as int]) {
        (1 + sp_ws(s, i + 1)) as nat
    } else {
        0
    }
}

/// Length of the digit run starting at `i`.
pub open spec fn sp_digits(s: Seq<u8>, i: nat) -> nat
    decreases rem(s, i),
{
    if i < s.len() && is_digit(s[i as int]) {
        (1 + sp_digits(s, i + 1)) as nat
    } else {
        0
    }
}

/// Value of a decimal digit string.
pub open spec fn dec_val(d: Seq<u8>) -> nat
    decreases d.len(),
{
    if d.len() == 0 {
        0
    } else {
        dec_val(d.drop_last()) * 10 + (d.last() - 0x30) as nat
    }
}

/// Value of one hexadecimal digit.
pub open spec fn hex_digit_val(b: u8) -> Option<nat> {
    if 0x30 <= b <= 0x39 {
        Some((b - 0x30) as nat)
    } else if 0x41 <= b <= 0x46 {
        Some((b - 0x41 + 10) as nat)
    } else if 0x61 <= b <= 0x66 {
        Some((b - 0x61 + 10) as nat)
    } else {
        None
    }
}

/// Value of the four hexadecimal digits at `i`.
pub open spec fn sp_hex4(s: Seq<u8>, i: nat) -> Option<nat> {
    if i + 4 <= s.len() {
        match (
            hex_digit_val(s[i as int]),
            hex_digit_val(s[i as int + 1]),
            hex_digit_val(s[i as int + 2]),
            hex_digit_val(s[i as int + 3]),
        ) {
            (Some(a), Some(b), Some(c), Some(d)) => Some(a * 0x1000 + b * 0x100 + c * 0x10 + d),
            _ => None,
        }
    } else {
        None
    }
}

/// UTF-8 encoding of a scalar value.
pub open spec fn utf8_enc(cp: nat) -> Seq<u8> {
    if cp < 0x80 {
        seq![cp as u8]
    } else if cp < 0x800 {
        seq![(0xC0 + cp / 0x40) as u8, (0x80 + cp % 0x40) as u8]
    } else if cp < 0x10000 {
        seq![
            (0xE0 + cp / 0x1000) as u8,
            (0x80 + (cp / 0x40) % 0x40) as u8,
            (0x80 + cp % 0x40) as u8,
        ]
    } else {
        seq![
            (0xF0 + cp / 0x40000) as u8,
            (0x80 + (cp / 0x1000) % 0x40) as u8,
            (0x80 + (cp / 0x40) % 0x40) as u8,
            (0x80 + cp % 0x40) as u8,
        ]
    }
}

/// Decoded contents of a string body starting just past the opening quote.
/// On success the scan ends just past the closing quote, at `i + 1 + m`.
pub open spec fn sp_str_body(s: Seq<u8>, i: nat) -> Option<(Seq<u8>, nat)>
    decreases rem(s, i),
{
    if i >= s.len() {
        None
    } else {
        let b = s[i as int];
        if b == 0x22 {
            Some((Seq::empty(), 0))
        } else if b == 0x5c {
            if i + 1 >= s.len() {
                None
            } else {
                let e = s[i as int + 1];
                if e == 0x75 {
                    // \uXXXX, possibly a surrogate pair
                    match sp_hex4(s, i + 2) {
                        None => None,
                        Some(cp) => if 0xD800 <= cp < 0xDC00 {
                            if i + 8 <= s.len() && s[i as int + 6] == 0x5c && s[i as int + 7] == 0x75 {
                                match sp_hex4(s, i + 8) {
                                    None => None,
                                    Some(lo) => if 0xDC00 <= lo < 0xE000 {
                                        let full = 0x10000 + (cp - 0xD800) * 0x400 + (lo
                                            - 0xDC00);
                                        match sp_str_body(s, i + 12) {
                                            Some((t, m)) => Some(
                                                (utf8_enc(full as nat) + t, m + 12),
                                            ),
                                            None => None,
                                        }
                                    } else {
                                        None
                                    },
                                }
                            } else {
                                None
                            }
                        } else if 0xDC00 <= cp < 0xE000 {
                            None
                        } else {
                            match sp_str_body(s, i + 6) {
                                Some((t, m)) => Some((utf8_enc(cp) + t, m + 6)),
                                None => None,
                            }
                        },
                    }
                } else {
                    match simple_escape(e) {
                        None => None,
                        Some(d) => match sp_str_body(s, i + 2) {
                            Some((t, m)) => Some((seq![d] + t, m + 2)),
                            None => None,
                        },
                    }
                }
            }
        } else if b < 0x20 {
            None
        } else {
            match sp_str_body(s, i + 1) {
                Some((t, m)) => Some((seq![b] + t, m + 1)),
                None => None,
            }
        }
    }
}

/// The byte a two-character escape stands for.
pub open spec fn simple_escape(e: u8) -> Option<u8> {
    if e == 0x22 {
        Some(0x22)
    } else if e == 0x5c {
        Some(0x5c)
    } else if e == 0x2f {
        Some(0x2f)
    } else if e == 0x62 {
        Some(0x08)
    } else if e == 0x66 {
        Some(0x0c)
    } else if e == 0x6e {
        Some(0x0a)
    } else if e == 0x72 {
        Some(0x0d)
    } else if e == 0x74 {
        Some(0x09)
    } else {
        None
    }
}

/// Number of bytes in the number token at `i`, or `None` when no well-formed
/// number token starts there.
pub open spec fn sp_num_len(s: Seq<u8>, i: nat) -> Option<nat> {
    let sign: nat = if i < s.len() && s[i as int] == 0x2d {
        1
    } else {
        0
    };
    let p = i + sign;
    if p >= s.len() || !is_digit(s[p as int]) {
        None
    } else {
        let ilen: nat = if s[p as int] == 0x30 {
            1
        } else {
            sp_digits(s, p as nat)
        };
        let q = p + ilen;
        let flen: Option<nat> = if q < s.len() && s[q as int] == 0x2e {
            if sp_digits(s, (q + 1) as nat) == 0 {
                None
            } else {
                Some((1 + sp_digits(s, (q + 1) as nat)) as nat)
            }
        } else {
            Some(0)
        };
        match flen {
            None => None,
            Some(fl) => {
                let q2 = q + fl;
                if q2 < s.len() && (s[q2 as int] == 0x65 || s[q2 as int] == 0x45) {
                    let esign: nat = if q2 + 1 < s.len() && (s[q2 as int + 1] == 0x2b || s[q2 as int + 1]
                        == 0x2d) {
                        1
                    } else {
                        0
                    };
                    let el = sp_digits(s, (q2 + 1 + esign) as nat);
                    if el == 0 {
                        None
                    } else {
                        Some((sign + ilen + fl + 1 + esign + el) as nat)
                    }
                } else {
                    Some((sign + ilen + fl) as nat)
                }
            },
        }
    }
}

/// The value a number token stands for: an `Int` when it is a plain integer
/// in `i64` range, otherwise the token's own text.
pub open spec fn sp_num_value(s: Seq<u8>, i: nat, total: nat) -> JsonV {
    let sign: nat = if s[i as int] == 0x2d {
        1
    } else {
        0
    };
    let digits_only = forall|k: int| i + sign <= k < i + total ==> is_digit(#[trigger] s[k]);
    let token = s.subrange(i as int, (i + total) as int);
    if digits_only {
        let mag = dec_val(s.subrange((i + sign) as int, (i + total) as int));
        if sign == 1 {
            if mag <= 0x8000_0000_0000_0000 {
                JsonV::Int(-(mag as int))
            } else {
                JsonV::Num(token)
            }
        } else {
            if mag < 0x8000_0000_0000_0000 {
                JsonV::Int(mag as int)
            } else {
                JsonV::Num(token)
            }
        }
    } else {
        JsonV::Num(token)
    }
}

/// The JSON value starting exactly at `i` (no leading whitespace). On
/// success the scan ends at `i + 1 + m`.
pub open spec fn sp_value(s: Seq<u8>, i: nat) -> Option<(JsonV, nat)>
    decreases rem(s, i), 0int,
{
    if i >= s.len() {
        None
    } else {
        let b = s[i as int];
        if b == 0x6e {
            // null
            if i + 4 <= s.len() && s[i as int + 1] == 0x75 && s[i as int + 2] == 0x6c && s[i as int + 3] == 0x6c {
                Some((JsonV::Null, 3))
            } else {
                None
            }
        } else if b == 0x74 {
            // true
            if i + 4 <= s.len() && s[i as int + 1] == 0x72 && s[i as int + 2] == 0x75 && s[i as int + 3] == 0x65 {
                Some((JsonV::Bool(true), 3))
            } else {
                None
            }
        } else if b == 0x66 {
            // false
            if i + 5 <= s.len() && s[i as int + 1] == 0x61 && s[i as int + 2] == 0x6c && s[i as int + 3] == 0x73
                && s[i as int + 4] == 0x65 {
                Some((JsonV::Bool(false), 4))
            } else {
                None
            }
        } else if b == 0x22 {
            match sp_str_body(s, i + 1) {
                Some((t, m)) => Some((JsonV::Str(t), m + 1)),
                None => None,
            }
        } else if b == 0x2d || is_digit(b) {
            match sp_num_len(s, i) {
                Some(total) => Some((sp_num_value(s, i, total), (total - 1) as nat)),
                None => None,
            }
        } else if b == 0x5b {
            // array
            let w = sp_ws(s, i + 1);
            let j = i + 1 + w;
            if j < s.len() && s[j as int] == 0x5d {
                Some((JsonV::Arr(Seq::empty()), w + 1))
            } else {
                match sp_items(s, j) {
                    Some((elems, m2)) => Some((JsonV::Arr(elems), w + m2 + 1)),
                    None => None,
                }
            }
        } else if b == 0x7b {
            // object
            let w = sp_ws(s, i + 1);
            let j = i + 1 + w;
            if j < s.len() && s[j as int] == 0x7d {
                Some((JsonV::Obj(Seq::empty()), w + 1))
            } else {
                match sp_members(s, j) {
                    Some((pairs, m2)) => Some((JsonV::Obj(pairs), w + m2 + 1)),
                    None => None,
                }
            }
        } else {
            None
        }
    }
}

/// One or more comma-separated array elements starting at `i` (whitespace
/// allowed), up to and including the closing bracket at `i + m`.
pub open spec fn sp_items(s: Seq<u8>, i: nat) -> Option<(Seq<JsonV>, nat)>
    decreases rem(s, i), 1int,
{
    if i >= s.len() {
        None
    } else {
        match sp_value(s, i) {
            None => None,
            Some((v, mv)) => {
                let e = i + 1 + mv;
                let w2 = sp_ws(s, e);
                let k = e + w2;
                if k < s.len() && s[k as int] == 0x5d {
                    Some((seq![v], (k - i) as nat))
                } else if k < s.len() && s[k as int] == 0x2c {
                    let w3 = sp_ws(s, k + 1);
                    match sp_items(s, k + 1 + w3) {
                        Some((restv, m3)) => Some(
                            (seq![v] + restv, (1 + mv + w2 + 1 + w3 + m3) as nat),
                        ),
                        None => None,
                    }
                } else {
                    None
                }
            },
        }
    }
}

/// One or more comma-separated object members starting at `i`, up to and
/// including the closing brace at `i + m`.
pub open spec fn sp_members(s: Seq<u8>, i: nat) -> Option<(Seq<(Seq<u8>, JsonV)>, nat)>
    decreases rem(s, i), 1int,
{
    if i >= s.len() || s[i as int] != 0x22 {
        None
    } else {
        match sp_str_body(s, i + 1) {
            None => None,
            Some((key, mk)) => {
                let ek = i + 2 + mk;
                let wa = sp_ws(s, ek);
                let c = ek + wa;
                if c < s.len() && s[c as int] == 0x3a {
                    let wb = sp_ws(s, c + 1);
                    let jv = c + 1 + wb;
                    match sp_value(s, jv) {
                        None => None,
                        Some((v, mv)) => {
                            let e = jv + 1 + mv;
                            let w2 = sp_ws(s, e);
                            let k = e + w2;
                            if k < s.len() && s[k as int] == 0x7d {
                                Some((seq![(key, v)], (k - i) as nat))
                            } else if k < s.len() && s[k as int] == 0x2c {
                                let w3 = sp_ws(s, k + 1);
                                match sp_members(s, k + 1 + w3) {
                                    Some((restp, m3)) => Some(
                                        (
                                            seq![(key, v)] + restp,
                                            ((k - i) + w3 + m3 + 1) as nat,
                                        ),
                                    ),
                                    None => None,
                                }
                            } else {
                                None
                            }
                        },
                    }
                } else {
                    None
                }
            },
        }
    }
}

/// One complete JSON document: a single value with optional surrounding
/// whitespace and nothing else.
pub open spec fn sp_parse(s: Seq<u8>) -> Option<JsonV> {
    let w = sp_ws(s, 0);
    match sp_value(s, w) {
        Some((v, m)) => {
            let e = w + 1 + m;
            if e + sp_ws(s, e) == s.len() {
                Some(v)
            } else {
                None
            }
        },
        None => None,
    }
}

// ---------------------------------------------------------------------------
// The reader. Each function mirrors its specification production.
// ---------------------------------------------------------------------------

fn is_ws_b(b: u8) -> (r: bool)
    ensures
        r == is_ws_byte(b),
{
    b == 0x20 || b == 0x09 || b == 0x0a || b == 0x0d
}

fn is_digit_b(b: u8) -> (r: bool)
    ensures
        r == is_digit(b),
{
    0x30 <= b && b <= 0x39
}

/// Index of the first non-whitespace byte at or after `i`.
pub fn skip_ws(s: &[u8], i: usize) -> (j: usize)
    requires
        i <= s@.len(),
    ensures
        i <= j <= s@.len(),
        j == i + sp_ws(s@, i as nat),
{
    let mut j = i;
    while j < s.len() && is_ws_b(s[j])
        invariant
            i <= j <= s@.len(),
            sp_ws(s@, i as nat) == (j - i) + sp_ws(s@, j as nat),
        decreases s@.len() - j,
    {
        j += 1;
    }
    j
}

/// Index of the first non-digit byte at or after `i`.
fn skip_digits(s: &[u8], i: usize) -> (j: usize)
    requires
        i <= s@.len(),
    ensures
        i <= j <= s@.len(),
        j == i + sp_digits(s@, i as nat),
        forall|k: int| i <= k < j ==> is_digit(#[trigger] s@[k]),
{
    let mut j = i;
    while j < s.len() && is_digit_b(s[j])
        invariant
            i <= j <= s@.len(),
            sp_digits(s@, i as nat) == (j - i) + sp_digits(s@, j as nat),
            forall|k: int| i <= k < j ==> is_digit(#[trigger] s@[k]),
        decreases s@.len() - j,
    {
        j += 1;
    }
    j
}

/// Copy of `s[a..b]`.
pub fn copy_range(s: &[u8], a: usize, b: usize) -> (r: Vec<u8>)
    requires
        a <= b <= s@.len(),
    ensures
        r@ == s@.subrange(a as int, b as int),
{
    let mut r: Vec<u8> = Vec::new();
    let mut k = a;
    assert(r@ =~= s@.subrange(a as int, a as int));
    while k < b
        invariant
            a <= k <= b <= s@.len(),
            r@ == s@.subrange(a as int, k as int),
        decreases b - k,
    {
        r.push(s[k]);
        k += 1;
        assert(r@ =~= s@.subrange(a as int, k as int));
    }
    r
}

fn hex_val_b(b: u8) -> (r: Option<u8>)
    ensures
        match r {
            Some(v) => hex_digit_val(b) == Some(v as nat) && v < 16,
            None => hex_digit_val(b) is None,
        },
{
    if 0x30 <= b && b <= 0x39 {
        Some(b - 0x30)
    } else if 0x41 <= b && b <= 0x46 {
        Some(b - 0x41 + 10)
    } else if 0x61 <= b && b <= 0x66 {
        Some(b - 0x61 + 10)
    } else {
        None
    }
}

fn parse_hex4(s: &[u8], i: usize) -> (r: Option<u32>)
    requires
        i <= s@.len(),
    ensures
        match r {
            Some(v) => sp_hex4(s@, i as nat) == Some(v as nat) && v < 0x10000,
            None => sp_hex4(s@, i as nat) is None,
        },
{
    if s.len() - i < 4 {
        return None;
    }
    let a = hex_val_b(s[i]);
    let b = hex_val_b(s[i + 1]);
    let c = hex_val_b(s[i + 2]);
    let d = hex_val_b(s[i + 3]);
    match (a, b, c, d) {
        (Some(a), Some(b), Some(c), Some(d)) => Some(
            (a as u32) * 0x1000 + (b as u32) * 0x100 + (c as u32) * 0x10 + (d as u32),
        ),
        _ => None,
    }
}

/// Appends the UTF-8 encoding of a scalar value.
fn push_utf8(out: &mut Vec<u8>, cp: u32) -> (r: ())
    requires
        cp < 0x110000,
    ensures
        final(out)@ == old(out)@ + utf8_enc(cp as nat),
{
    if cp < 0x80 {
        out.push(cp as u8);
        assert(out@ =~= old(out)@ + utf8_enc(cp as nat));
    } else if cp < 0x800 {
        out.push((0xC0 + cp / 0x40) as u8);
        out.push((0x80 + cp % 0x40) as u8);
        assert(out@ =~= old(out)@ + utf8_enc(cp as nat));
    } else if cp < 0x10000 {
        out.push((0xE0 + cp / 0x1000) as u8);
        out.push((0x80 + (cp / 0x40) % 0x40) as u8);
        out.push((0x80 + cp % 0x40) as u8);
        assert(out@ =~= old(out)@ + utf8_enc(cp as nat));
    } else {
        out.push((0xF0 + cp / 0x40000) as u8);
        out.push((0x80 + (cp / 0x1000) % 0x40) as u8);
        out.push((0x80 + (cp / 0x40) % 0x40) as u8);
        out.push((0x80 + cp % 0x40) as u8);
        assert(out@ =~= old(out)@ + utf8_enc(cp as nat));
    }
}

fn simple_escape_b(e: u8) -> (r: Option<u8>)
    ensures
        r == simple_escape(e),
{
    if e == 0x22 {
        Some(0x22)
    } else if e == 0x5c {
        Some(0x5c)
    } else if e == 0x2f {
        Some(0x2f)
    } else if e == 0x62 {
        Some(0x08)
    } else if e == 0x66 {
        Some(0x0c)
    } else if e == 0x6e {
        Some(0x0a)
    } else if e == 0x72 {
        Some(0x0d)
    } else if e == 0x74 {
        Some(0x09)
    } else {
        None
    }
}

/// Decodes a string body starting just past the opening quote, appending the
/// contents to `out`; returns the index just past the closing quote.
#[verifier::rlimit(100)]
#[verifier::spinoff_prover]
#[verifier::loop_isolation(false)]
fn parse_str_into(s: &[u8], i: usize, out: &mut Vec<u8>) -> (r: Option<usize>)
    requires
        i <= s@.len(),
    ensures
        match sp_str_body(s@, i as nat) {
            Some((t, m)) => r == Some((i + 1 + m) as usize) && final(out)@ == old(out)@ + t && i
                + 1 + m <= s@.len(),
            None => r is None,
        },
{
    let mut cur = i;
    let ghost mut built: Seq<u8> = Seq::empty();
    assert(out@ =~= old(out)@ + built);
    loop
        invariant
            i <= cur <= s@.len(),
            out@ == old(out)@ + built,
            match sp_str_body(s@, cur as nat) {
                Some((t, m)) => sp_str_body(s@, i as nat) == Some(
                    (built + t, (cur - i + m) as nat),
                ),
                None => sp_str_body(s@, i as nat) is None,
            },
        decreases s@.len() - cur,
    {
        if cur >= s.len() {
            return None;
        }
        let b = s[cur];
        if b == 0x22 {
            proof {
                assert(built + Seq::<u8>::empty() =~= built);
            }
            return Some(cur + 1);
        }
        if b == 0x5c {
            if s.len() - cur < 2 {
                return None;
            }
            let e = s[cur + 1];
            if e == 0x75 {
                let cp = match parse_hex4(s, cur + 2) {
                    Some(cp) => cp,
                    None => {
                        return None;
                    },
                };
                if 0xD800 <= cp && cp < 0xDC00 {
                    if s.len() - cur >= 8 && s[cur + 6] == 0x5c && s[cur + 7] == 0x75 {
                        let lo = match parse_hex4(s, cur + 8) {
                            Some(lo) => lo,
                            None => {
                                return None;
                            },
                        };
                        if 0xDC00 <= lo && lo < 0xE000 {
                            let full = 0x10000 + (cp - 0xD800) * 0x400 + (lo - 0xDC00);
                            push_utf8(out, full);
                            proof {
                                match sp_str_body(s@, (cur + 12) as nat) {
                                    Some((t, m)) => {
                                        assert((built + utf8_enc(full as nat)) + t =~= built + (
                                        utf8_enc(full as nat) + t));
                                    },
                                    None => {},
                                }
                                built = built + utf8_enc(full as nat);
                            }
                            cur = cur + 12;
                        } else {
                            return None;
                        }
                    } else {
                        return None;
                    }
                } else if 0xDC00 <= cp && cp < 0xE000 {
                    return None;
                } else {
                    push_utf8(out, cp);
                    proof {
                        match sp_str_body(s@, (cur + 6) as nat) {
                            Some((t, m)) => {
                                assert((built + utf8_enc(cp as nat)) + t =~= built + (utf8_enc(
                                    cp as nat,
                                ) + t));
                            },
                            None => {},
                        }
                        built = built + utf8_enc(cp as nat);
                    }
                    cur = cur + 6;
                }
            } else {
                let d = match simple_escape_b(e) {
                    Some(d) => d,
                    None => {
                        return None;
                    },
                };
                out.push(d);
                proof {
                    match sp_str_body(s@, (cur + 2) as nat) {
                        Some((t, m)) => {
                            assert((built + seq![d]) + t =~= built + (seq![d] + t));
                        },
                        None => {},
                    }
                    assert(out@ =~= old(out)@ + (built + seq![d]));
                    built = built + seq![d];
                }
                cur = cur + 2;
            }
        } else if b < 0x20 {
            return None;
        } else {
            out.push(b);
            proof {
                match sp_str_body(s@, (cur + 1) as nat) {
                    Some((t, m)) => {
                        assert((built + seq![b]) + t =~= built + (seq![b] + t));
                    },
                    None => {},
                }
                assert(out@ =~= old(out)@ + (built + seq![b]));
                built = built + seq![b];
            }
            cur = cur + 1;
        }
    }
}

/// Reads the number token at `i` and classifies it.
#[verifier::rlimit(100)]
#[verifier::spinoff_prover]
fn parse_number(s: &[u8], i: usize) -> (r: Option<(Json, usize)>)
    requires
        i <= s@.len(),
    ensures
        match r {
            Some((v, end)) => sp_num_len(s@, i as nat) matches Some(total) && end == i + total
                && v@ == sp_num_value(s@, i as nat, total) && i < end <= s@.len(),
            None => sp_num_len(s@, i as nat) is None,
        },
{
    let neg = i < s.len() && s[i] == 0x2d;
    let sign: usize = if neg {
        1
    } else {
        0
    };
    let p = i + sign;
    if p >= s.len() || !is_digit_b(s[p]) {
        return None;
    }
    let ilen: usize = if s[p] == 0x30 {
        1
    } else {
        skip_digits(s, p) - p
    };
    let q = p + ilen;
    let mut end = q;
    let mut fractional = false;
    if q < s.len() && s[q] == 0x2e {
        let fe = skip_digits(s, q + 1);
        if fe == q + 1 {
            return None;
        }
        end = fe;
        fractional = true;
    }
    let q2 = end;
    if q2 < s.len() && (s[q2] == 0x65 || s[q2] == 0x45) {
        let esign: usize = if q2 + 1 < s.len() && (s[q2 + 1] == 0x2b || s[q2 + 1] == 0x2d) {
            1
        } else {
            0
        };
        let ee = skip_digits(s, q2 + 1 + esign);
        if ee == q2 + 1 + esign {
            return None;
        }
        end = ee;
        fractional = true;
    }
    let ghost total = (end - i) as nat;
    assert(sp_num_len(s@, i as nat) == Some(total));
    if fractional {
        let token = copy_range(s, i, end);
        assert(!(forall|k: int| i + sign <= k < i + total ==> is_digit(#[trigger] s@[k]))) by {
            assert(!is_digit(s@[q as int]));
        }
        return Some((Json::Num(token), end));
    }
    // a plain integer literal: compute its magnitude, watching the i64 range
    assert(forall|k: int| i + sign <= k < i + total ==> is_digit(#[trigger] s@[k]));
    let mut acc: u64 = 0;
    let mut over = false;
    let mut k = p;
    assert(s@.subrange(p as int, p as int) =~= Seq::<u8>::empty());
    while k < end
        invariant
            p <= k <= end <= s@.len(),
            forall|t: int| p <= t < end ==> is_digit(#[trigger] s@[t]),
            !over ==> acc == dec_val(s@.subrange(p as int, k as int)) && acc
                <= 0x8000_0000_0000_0000,
            over ==> dec_val(s@.subrange(p as int, k as int)) > 0x8000_0000_0000_0000,
        decreases end - k,
    {
        let d = s[k] - 0x30;
        let ghost prefix = s@.subrange(p as int, k as int);
        assert(s@.subrange(p as int, k as int + 1).drop_last() =~= prefix);
        assert(dec_val(s@.subrange(p as int, k as int + 1)) == dec_val(prefix) * 10 + d);
        if over {
            assert(dec_val(prefix) * 10 + d > 0x8000_0000_0000_0000) by (nonlinear_arith)
                requires
                    dec_val(prefix) > 0x8000_0000_0000_0000,
                    d >= 0,
            ;
        } else {
            let wide: u128 = (acc as u128) * 10 + (d as u128);
            if wide > 0x8000_0000_0000_0000 {
                over = true;
            } else {
                acc = wide as u64;
            }
        }
        k += 1;
    }
    assert(s@.subrange(p as int, end as int) =~= s@.subrange((i + sign) as int, (i
        + total) as int));
    if over {
        let token = copy_range(s, i, end);
        return Some((Json::Num(token), end));
    }
    if neg {
        if acc == 0x8000_0000_0000_0000 {
            return Some((Json::Int(i64::MIN), end));
        }
        return Some((Json::Int(-(acc as i64)), end));
    }
    if acc == 0x8000_0000_0000_0000 {
        let token = copy_range(s, i, end);
        return Some((Json::Num(token), end));
    }
    Some((Json::Int(acc as i64), end))
}

/// `jview_seq` distributes over `push`.
pub proof fn lemma_jview_seq_push(s: Seq<Json>, v: Json)
    ensures
        jview_seq(s.push(v)) == jview_seq(s).push(jview(v)),
{
    assert(s.push(v).drop_last() =~= s);
    assert(s.push(v).last() == v);
}

/// `jview_pairs` distributes over `push`.
pub proof fn lemma_jview_pairs_push(s: Seq<(Vec<u8>, Json)>, k: Vec<u8>, v: Json)
    ensures
        jview_pairs(s.push((k, v))) == jview_pairs(s).push((k@, jview(v))),
{
    assert(s.push((k, v)).drop_last() =~= s);
    assert(s.push((k, v)).last() == (k, v));
}

/// Reads the JSON value starting exactly at `i`.
#[verifier::rlimit(100)]
#[verifier::spinoff_prover]
pub fn parse_value(s: &[u8], i: usize) -> (r: Option<(Json, usize)>)
    requires
        i <= s@.len(),
    ensures
        match r {
            Some((v, end)) => sp_value(s@, i as nat) matches Some((vv, m)) && vv == v@ && end == i
                + 1 + m && i < end <= s@.len(),
            None => sp_value(s@, i as nat) is None,
        },
    decreases s@.len() - i, 0int,
{
    if i >= s.len() {
        return None;
    }
    let b = s[i];
    if b == 0x6e {
        if s.len() - i >= 4 && s[i + 1] == 0x75 && s[i + 2] == 0x6c && s[i + 3] == 0x6c {
            Some((Json::Null, i + 4))
        } else {
            None
        }
    } else if b == 0x74 {
        if s.len() - i >= 4 && s[i + 1] == 0x72 && s[i + 2] == 0x75 && s[i + 3] == 0x65 {
            Some((Json::Bool(true), i + 4))
        } else {
            None
        }
    } else if b == 0x66 {
        if s.len() - i >= 5 && s[i + 1] == 0x61 && s[i + 2] == 0x6c && s[i + 3] == 0x73 && s[i + 4]
            == 0x65 {
            Some((Json::Bool(false), i + 5))
        } else {
            None
        }
    } else if b == 0x22 {
        let mut t: Vec<u8> = Vec::new();
        match parse_str_into(s, i + 1, &mut t) {
            Some(end) => {
                proof {
                    match sp_str_body(s@, (i + 1) as nat) {
                        Some((tt, m)) => {
                            assert(Seq::<u8>::empty() + tt =~= tt);
                        },
                        None => {},
                    }
                }
                Some((Json::Str(t), end))
            },
            None => None,
        }
    } else if b == 0x2d || is_digit_b(b) {
        parse_number(s, i)
    } else if b == 0x5b {
        let j = skip_ws(s, i + 1);
        if j < s.len() && s[j] == 0x5d {
            Some((Json::Arr(Vec::new()), j + 1))
        } else {
            let mut elems: Vec<Json> = Vec::new();
            match parse_items(s, j, &mut elems) {
                Some(end) => {
                    proof {
                        match sp_items(s@, j as nat) {
                            Some((selems, m2)) => {
                                assert(jview_seq(Seq::<Json>::empty()) + selems =~= selems);
                            },
                            None => {},
                        }
                    }
                    Some((Json::Arr(elems), end))
                },
                None => None,
            }
        }
    } else if b == 0x7b {
        let j = skip_ws(s, i + 1);
        if j < s.len() && s[j] == 0x7d {
            Some((Json::Obj(Vec::new()), j + 1))
        } else {
            let mut pairs: Vec<(Vec<u8>, Json)> = Vec::new();
            match parse_members(s, j, &mut pairs) {
                Some(end) => {
                    proof {
                        match sp_members(s@, j as nat) {
                            Some((spairs, m2)) => {
                                assert(jview_pairs(Seq::<(Vec<u8>, Json)>::empty()) + spairs
                                    =~= spairs);
                            },
                            None => {},
                        }
                    }
                    Some((Json::Obj(pairs), end))
                },
                None => None,
            }
        }
    } else {
        None
    }
}

/// Reads comma-separated array elements up to the closing bracket,
/// appending them to `out`; returns the index just past the bracket.
#[verifier::rlimit(100)]
#[verifier::spinoff_prover]
#[verifier::loop_isolation(false)]
fn parse_items(s: &[u8], i: usize, out: &mut Vec<Json>) -> (r: Option<usize>)
    requires
        i <= s@.len(),
    ensures
        match sp_items(s@, i as nat) {
            Some((elems, m)) => r == Some((i + 1 + m) as usize) && jview_seq(final(out)@)
                == jview_seq(old(out)@) + elems && i + 1 + m <= s@.len(),
            None => r is None,
        },
    decreases s@.len() - i, 1int,
{
    let mut j = i;
    let ghost mut built: Seq<JsonV> = Seq::empty();
    assert(jview_seq(out@) =~= jview_seq(old(out)@) + built);
    loop
        invariant
            i <= j <= s@.len(),
            jview_seq(out@) == jview_seq(old(out)@) + built,
            match sp_items(s@, j as nat) {
                Some((elems, m)) => sp_items(s@, i as nat) == Some(
                    (built + elems, (j - i + m) as nat),
                ),
                None => sp_items(s@, i as nat) is None,
            },
        decreases s@.len() - j, 0int,
    {
        if j >= s.len() {
            return None;
        }
        let (v, e) = match parse_value(s, j) {
            Some(r) => r,
            None => {
                return None;
            },
        };
        let k = skip_ws(s, e);
        let ghost pre = out@;
        if k < s.len() && s[k] == 0x5d {
            out.push(v);
            proof {
                assert(out@.drop_last() =~= pre);
                lemma_jview_seq_push(pre, out@.last());
                assert(pre.push(out@.last()) =~= out@);
                assert((jview_seq(old(out)@) + built).push(jview(v)) =~= jview_seq(old(out)@) + (
                built + seq![jview(v)]));
                assert(built + seq![jview(v)] =~= built + seq![jview(v)] + Seq::<
                    JsonV,
                >::empty());
            }
            return Some(k + 1);
        }
        if k < s.len() && s[k] == 0x2c {
            let j2 = skip_ws(s, k + 1);
            out.push(v);
            proof {
                assert(out@.drop_last() =~= pre);
                lemma_jview_seq_push(pre, out@.last());
                assert(pre.push(out@.last()) =~= out@);
                assert((jview_seq(old(out)@) + built).push(jview(v)) =~= jview_seq(old(out)@) + (
                built.push(jview(v))));
                match sp_items(s@, j2 as nat) {
                    Some((restv, m3)) => {
                        assert(built.push(jview(v)) + restv =~= built + (seq![jview(v)]
                            + restv));
                    },
                    None => {},
                }
                built = built.push(jview(v));
            }
            j = j2;
        } else {
            return None;
        }
    }
}

/// Reads comma-separated object members up to the closing brace,
/// appending them to `out`; returns the index just past the brace.
#[verifier::rlimit(100)]
#[verifier::spinoff_prover]
#[verifier::loop_isolation(false)]
fn parse_members(s: &[u8], i: usize, out: &mut Vec<(Vec<u8>, Json)>) -> (r: Option<usize>)
    requires
        i <= s@.len(),
    ensures
        match sp_members(s@, i as nat) {
            Some((pairs, m)) => r == Some((i + 1 + m) as usize) && jview_pairs(final(out)@)
                == jview_pairs(old(out)@) + pairs && i + 1 + m <= s@.len(),
            None => r is None,
        },
    decreases s@.len() - i, 1int,
{
    let mut j = i;
    let ghost mut built: Seq<(Seq<u8>, JsonV)> = Seq::empty();
    assert(jview_pairs(out@) =~= jview_pairs(old(out)@) + built);
    loop
        invariant
            i <= j <= s@.len(),
            jview_pairs(out@) == jview_pairs(old(out)@) + built,
            match sp_members(s@, j as nat) {
                Some((pairs, m)) => sp_members(s@, i as nat) == Some(
                    (built + pairs, (j - i + m) as nat),
                ),
                None => sp_members(s@, i as nat) is None,
            },
        decreases s@.len() - j, 0int,
    {
        if j >= s.len() || s[j] != 0x22 {
            return None;
        }
        let mut key: Vec<u8> = Vec::new();
        let ek = match parse_str_into(s, j + 1, &mut key) {
            Some(ek) => ek,
            None => {
                return None;
            },
        };
        proof {
            match sp_str_body(s@, (j + 1) as nat) {
                Some((tt, mk)) => {
                    assert(Seq::<u8>::empty() + tt =~= tt);
                },
                None => {},
            }
        }
        let c = skip_ws(s, ek);
        if !(c < s.len() && s[c] == 0x3a) {
            return None;
        }
        let jv = skip_ws(s, c + 1);
        let (v, e) = match parse_value(s, jv) {
            Some(r) => r,
            None => {
                return None;
            },
        };
        let k = skip_ws(s, e);
        let ghost pre = out@;
        let ghost kv = key@;
        if k < s.len() && s[k] == 0x7d {
            out.push((key, v));
            proof {
                assert(out@.drop_last() =~= pre);
                lemma_jview_pairs_push(pre, out@.last().0, out@.last().1);
                assert(pre.push((out@.last().0, out@.last().1)) =~= out@);
                assert((jview_pairs(old(out)@) + built).push((kv, jview(v))) =~= jview_pairs(
                    old(out)@,
                ) + (built + seq![(kv, jview(v))]));
            }
            return Some(k + 1);
        }
        if k < s.len() && s[k] == 0x2c {
            let j2 = skip_ws(s, k + 1);
            out.push((key, v));
            proof {
                assert(out@.drop_last() =~= pre);
                lemma_jview_pairs_push(pre, out@.last().0, out@.last().1);
                assert(pre.push((out@.last().0, out@.last().1)) =~= out@);
                assert((jview_pairs(old(out)@) + built).push((kv, jview(v))) =~= jview_pairs(
                    old(out)@,
                ) + (built.push((kv, jview(v)))));
                match sp_members(s@, j2 as nat) {
                    Some((restp, m3)) => {
                        assert(built.push((kv, jview(v))) + restp =~= built + (seq![
                            (kv, jview(v)) ] + restp));
                    },
                    None => {},
                }
                built = built.push((kv, jview(v)));
            }
            j = j2;
        } else {
            return None;
        }
    }
}

/// Reads one complete JSON document: a single value with optional
/// surrounding whitespace and nothing else.
pub fn parse_json(s: &[u8]) -> (r: Option<Json>)
    ensures
        match r {
            Some(v) => sp_parse(s@) == Some(v@),
            None => sp_parse(s@) is None,
        },
{
    let w = skip_ws(s, 0);
    match parse_value(s, w) {
        Some((v, end)) => {
            let e2 = skip_ws(s, end);
            if e2 == s.len() {
                Some(v)
            } else {
                None
            }
        },
        None => None,
    }
}

// ---------------------------------------------------------------------------
// The writer.
// ---------------------------------------------------------------------------

/// Hexadecimal digit for a value below 16, lower case.
pub open spec fn hex_digit(n: nat) -> u8 {
    if n < 10 {
        (0x30 + n) as u8
    } else {
        (0x57 + n) as u8
    }
}

/// How one string byte appears on the wire: quote, backslash and control
/// bytes are escaped, everything else is written as itself.
pub open spec fn esc_byte(b: u8) -> Seq<u8> {
    if b == 0x22 {
        seq![0x5c, 0x22]
    } else if b == 0x5c {
        seq![0x5c, 0x5c]
    } else if b < 0x20 {
        seq![0x5c, 0x75, 0x30, 0x30, hex_digit((b / 16) as nat), hex_digit((b % 16) as nat)]
    } else {
        seq![b]
    }
}

/// Wire form of a string body.
pub open spec fn esc_seq(t: Seq<u8>) -> Seq<u8>
    decreases t.len(),
{
    if t.len() == 0 {
        Seq::empty()
    } else {
        esc_byte(t[0]) + esc_seq(t.drop_first())
    }
}

/// Decimal digits of a natural number, most significant first.
pub open spec fn dec_digits(n: nat) -> Seq<u8>
    decreases n,
{
    if n < 10 {
        seq![(0x30 + n) as u8]
    } else {
        dec_digits(n / 10).push((0x30 + n % 10) as u8)
    }
}

/// Wire form of an integer.
pub open spec fn int_lit(n: int) -> Seq<u8> {
    if n < 0 {
        seq![0x2d] + dec_digits((-n) as nat)
    } else {
        dec_digits(n as nat)
    }
}

/// Wire form of a JSON value, with no insignificant whitespace.
pub open spec fn sp_ser(v: JsonV) -> Seq<u8>
    decreases v, 0int,
{
    match v {
        JsonV::Null => seq![0x6e, 0x75, 0x6c, 0x6c],
        JsonV::Bool(b) => if b {
            seq![0x74, 0x72, 0x75, 0x65]
        } else {
            seq![0x66, 0x61, 0x6c, 0x73, 0x65]
        },
        JsonV::Int(n) => int_lit(n),
        JsonV::Num(t) => t,
        JsonV::Str(t) => seq![0x22] + esc_seq(t) + seq![0x22],
        JsonV::Arr(elems) => seq![0x5b] + ser_items(elems) + seq![0x5d],
        JsonV::Obj(pairs) => seq![0x7b] + ser_members(pairs) + seq![0x7d],
    }
}

/// Wire form of an array's elements, comma separated.
pub open spec fn ser_items(elems: Seq<JsonV>) -> Seq<u8>
    decreases elems, 1int,
{
    if elems.len() == 0 {
        Seq::empty()
    } else if elems.len() == 1 {
        sp_ser(elems[0])
    } else {
        sp_ser(elems[0]) + seq![0x2c] + ser_items(elems.drop_first())
    }
}

/// Wire form of an object's members, comma separated.
pub open spec fn ser_members(pairs: Seq<(Seq<u8>, JsonV)>) -> Seq<u8>
    decreases pairs, 1int,
{
    if pairs.len() == 0 {
        Seq::empty()
    } else {
        let head = seq![0x22] + esc_seq(pairs[0].0) + seq![0x22, 0x3a] + sp_ser(pairs[0].1);
        if pairs.len() == 1 {
            head
        } else {
            head + seq![0x2c] + ser_members(pairs.drop_first())
        }
    }
}

/// Appends the decimal digits of `n`.
fn write_dec(n: u64, out: &mut Vec<u8>)
    ensures
        final(out)@ == old(out)@ + dec_digits(n as nat),
    decreases n,
{
    if n < 10 {
        out.push(0x30 + n as u8);
        assert(final(out)@ =~= old(out)@ + dec_digits(n as nat));
    } else {
        let ghost pre = out@;
        write_dec(n / 10, out);
        out.push(0x30 + (n % 10) as u8);
        assert(final(out)@ =~= pre + dec_digits(n as nat));
    }
}

/// The decimal digits of a number, as bytes.
pub fn dec_bytes(n: u64) -> (r: Vec<u8>)
    ensures
        r@ == dec_digits(n as nat),
{
    let mut out: Vec<u8> = Vec::new();
    write_dec(n, &mut out);
    assert(Seq::<u8>::empty() + dec_digits(n as nat) =~= dec_digits(n as nat));
    out
}

/// Appends the wire form of an integer.
fn write_int(n: i64, out: &mut Vec<u8>)
    ensures
        final(out)@ == old(out)@ + int_lit(n as int),
{
    if n >= 0 {
        write_dec(n as u64, out);
    } else {
        let ghost pre = out@;
        out.push(0x2d);
        let mag: u64 = ((-(n + 1)) as u64) + 1;
        assert(mag as nat == -(n as int) as nat);
        write_dec(mag, out);
        assert(final(out)@ =~= pre + (seq![0x2du8] + dec_digits(mag as nat)));
    }
}

/// Appends the wire form of a string body.
fn write_escaped(t: &[u8], out: &mut Vec<u8>)
    ensures
        final(out)@ == old(out)@ + esc_seq(t@),
{
    let ghost orig = out@;
    let mut i: usize = 0;
    assert(orig + Seq::<u8>::empty() =~= orig);
    assert(t@.skip(0) =~= t@);
    while i < t.len()
        invariant
            i <= t@.len(),
            out@ + esc_seq(t@.skip(i as int)) == orig + esc_seq(t@),
        decreases t@.len() - i,
    {
        let b = t[i];
        let ghost pre = out@;
        assert(t@.skip(i as int)[0] == b);
        assert(t@.skip(i as int).drop_first() =~= t@.skip(i as int + 1));
        if b == 0x22 {
            out.push(0x5c);
            out.push(0x22);
        } else if b == 0x5c {
            out.push(0x5c);
            out.push(0x5c);
        } else if b < 0x20 {
            out.push(0x5c);
            out.push(0x75);
            out.push(0x30);
            out.push(0x30);
            let hi = b / 16;
            let lo = b % 16;
            out.push(if hi < 10 { 0x30 + hi } else { 0x57 + hi });
            out.push(if lo < 10 { 0x30 + lo } else { 0x57 + lo });
        } else {
            out.push(b);
        }
        assert(out@ =~= pre + esc_byte(b));
        proof {
            assert((pre + esc_byte(b)) + esc_seq(t@.skip(i as int + 1)) =~= pre + (esc_byte(b)
                + esc_seq(t@.skip(i as int + 1))));
        }
        i += 1;
    }
    assert(t@.skip(t@.len() as int) =~= Seq::<u8>::empty());
    assert(out@ + Seq::<u8>::empty() =~= out@);
}

/// Appends the wire form of a value.
pub fn write_json(v: &Json, out: &mut Vec<u8>)
    ensures
        final(out)@ == old(out)@ + sp_ser(v@),
    decreases v, 0int,
{
    let ghost pre = out@;
    match v {
        Json::Null => {
            out.push(0x6e);
            out.push(0x75);
            out.push(0x6c);
            out.push(0x6c);
            assert(out@ =~= pre + sp_ser(v@));
        },
        Json::Bool(b) => {
            if *b {
                out.push(0x74);
                out.push(0x72);
                out.push(0x75);
                out.push(0x65);
            } else {
                out.push(0x66);
                out.push(0x61);
                out.push(0x6c);
                out.push(0x73);
                out.push(0x65);
            }
            assert(out@ =~= pre + sp_ser(v@));
        },
        Json::Int(n) => {
            write_int(*n, out);
        },
        Json::Num(t) => {
            let ghost p2 = out@;
            let mut k: usize = 0;
            assert(out@ =~= pre + t@.subrange(0, 0));
            while k < t.len()
                invariant
                    k <= t@.len(),
                    out@ == pre + t@.subrange(0, k as int),
                decreases t@.len() - k,
            {
                out.push(t[k]);
                k += 1;
                assert(out@ =~= pre + t@.subrange(0, k as int));
            }
            assert(t@.subrange(0, t@.len() as int) =~= t@);
        },
        Json::Str(t) => {
            out.push(0x22);
            write_escaped(t.as_slice(), out);
            out.push(0x22);
            assert(out@ =~= pre + (seq![0x22u8] + esc_seq(t@) + seq![0x22u8]));
        },
        Json::Arr(items) => {
            out.push(0x5b);
            write_items(items, 0, out);
            out.push(0x5d);
            proof {
                lemma_jview_seq(items@);
                assert(jview_seq(items@).skip(0) =~= jview_seq(items@));
                assert(out@ =~= pre + (seq![0x5bu8] + ser_items(jview_seq(items@)) + seq![
                    0x5du8 ]));
            }
        },
        Json::Obj(pairs) => {
            out.push(0x7b);
            write_members(pairs, 0, out);
            out.push(0x7d);
            proof {
                lemma_jview_pairs(pairs@);
                assert(jview_pairs(pairs@).skip(0) =~= jview_pairs(pairs@));
                assert(out@ =~= pre + (seq![0x7bu8] + ser_members(jview_pairs(pairs@)) + seq![
                    0x7du8 ]));
            }
        },
    }
}

/// Appends the wire form of the elements from `idx` on.
fn write_items(items: &Vec<Json>, idx: usize, out: &mut Vec<u8>)
    requires
        idx <= items@.len(),
    ensures
        final(out)@ == old(out)@ + ser_items(jview_seq(items@).skip(idx as int)),
    decreases items, 1int, items@.len() - idx,
{
    proof {
        lemma_jview_seq(items@);
    }
    let ghost tail = jview_seq(items@).skip(idx as int);
    if idx >= items.len() {
        assert(tail =~= Seq::<JsonV>::empty());
        assert(final(out)@ =~= old(out)@ + ser_items(tail));
        return ;
    }
    let ghost pre = out@;
    assert(tail[0] == jview(items@[idx as int]));
    write_json(&items[idx], out);
    if idx + 1 < items.len() {
        out.push(0x2c);
        let ghost mid = out@;
        write_items(items, idx + 1, out);
        proof {
            assert(tail.drop_first() =~= jview_seq(items@).skip(idx as int + 1));
            assert(out@ =~= pre + (sp_ser(tail[0]) + seq![0x2cu8] + ser_items(
                tail.drop_first(),
            )));
        }
    } else {
        assert(tail.len() == 1);
        assert(out@ =~= pre + ser_items(tail));
    }
}

/// Appends the wire form of the members from `idx` on.
fn write_members(pairs: &Vec<(Vec<u8>, Json)>, idx: usize, out: &mut Vec<u8>)
    requires
        idx <= pairs@.len(),
    ensures
        final(out)@ == old(out)@ + ser_members(jview_pairs(pairs@).skip(idx as int)),
    decreases pairs, 1int, pairs@.len() - idx,
{
    proof {
        lemma_jview_pairs(pairs@);
    }
    let ghost tail = jview_pairs(pairs@).skip(idx as int);
    if idx >= pairs.len() {
        assert(tail =~= Seq::<(Seq<u8>, JsonV)>::empty());
        assert(final(out)@ =~= old(out)@ + ser_members(tail));
        return ;
    }
    let ghost pre = out@;
    assert(tail[0] == (pairs@[idx as int].0@, jview(pairs@[idx as int].1)));
    out.push(0x22);
    write_escaped(pairs[idx].0.as_slice(), out);
    out.push(0x22);
    out.push(0x3a);
    write_json(&pairs[idx].1, out);
    let ghost head = seq![0x22u8] + esc_seq(tail[0].0) + seq![0x22u8, 0x3au8] + sp_ser(
        tail[0].1,
    );
    assert(out@ =~= pre + head);
    if idx + 1 < pairs.len() {
        out.push(0x2c);
        write_members(pairs, idx + 1, out);
        proof {
            assert(tail.drop_first() =~= jview_pairs(pairs@).skip(idx as int + 1));
            assert(out@ =~= pre + (head + seq![0x2cu8] + ser_members(tail.drop_first())));
        }
    } else {
        assert(tail.len() == 1);
        assert(out@ =~= pre + ser_members(tail));
    }
}

/// The wire form of a value, as a fresh buffer.
pub fn to_bytes(v: &Json) -> (r: Vec<u8>)
    ensures
        r@ == sp_ser(v@),
{
    let mut out: Vec<u8> = Vec::new();
    write_json(v, &mut out);
    assert(Seq::<u8>::empty() + sp_ser(v@) =~= sp_ser(v@));
    out
}

/// Byte-for-byte equality of two byte strings.
pub fn bytes_eq(a: &[u8], b: &[u8]) -> (r: bool)
    ensures
        r == (a@ == b@),
{
    if a.len() != b.len() {
        assert(a@.len() != b@.len());
        return false;
    }
    let mut i: usize = 0;
    while i < a.len()
        invariant
            i <= a.len(),
            a.len() == b.len(),
            forall|k: int| 0 <= k < i ==> a@[k] == b@[k],
        decreases a.len() - i,
    {
        if a[i] != b[i] {
            return false;
        }
        i += 1;
    }
    assert(a@ =~= b@);
    true
}

impl Json {
    /// Field lookup on an object; `None` on any other shape.
    pub fn get(&self, key: &[u8]) -> (r: Option<&Json>)
        ensures
            match r {
                Some(v) => jget(self@, key@) == Some(v@),
                None => jget(self@, key@) == None::<JsonV>,
            },
    {
        match self {
            Json::Obj(pairs) => {
                proof {
                    lemma_jview_pairs(pairs@);
                }
                let ghost pv = jview_pairs(pairs@);
                let mut idx: usize = pairs.len();
                assert(pv.take(idx as int) =~= pv);
                while idx > 0
                    invariant
                        idx <= pairs.len(),
                        pv == jview_pairs(pairs@),
                        pv.len() == pairs@.len(),
                        forall|i: int| 0 <= i < pairs@.len()
                            ==> #[trigger] pv[i] == (pairs@[i].0@, jview(pairs@[i].1)),
                        self@ == JsonV::Obj(pv),
                        obj_get(pv, key@) == obj_get(pv.take(idx as int), key@),
                    decreases idx,
                {
                    assert(pv.take(idx as int).last() == pv[idx - 1]);
                    assert(pv.take(idx as int).drop_last() =~= pv.take(idx - 1));
                    if bytes_eq(pairs[idx - 1].0.as_slice(), key) {
                        return Some(&pairs[idx - 1].1);
                    }
                    idx -= 1;
                }
                None
            },
            _ => None,
        }
    }

    /// The string contents when the value is a string.
    pub fn as_str_bytes(&self) -> (r: Option<&Vec<u8>>)
        ensures
            match r {
                Some(t) => self@ == JsonV::Str(t@),
                None => !(self@ is Str),
            },
    {
        match self {
            Json::Str(t) => Some(t),
            _ => None,
        }
    }

    /// The numeric value when the value is an integer that fits in `i64`.
    pub fn as_i64(&self) -> (r: Option<i64>)
        ensures
            match r {
                Some(n) => self@ == JsonV::Int(n as int),
                None => !(self@ is Int),
            },
    {
        match self {
            Json::Int(n) => Some(*n),
            _ => None,
        }
    }

    /// The boolean value when the value is a boolean.
    pub fn as_bool(&self) -> (r: Option<bool>)
        ensures
            match r {
                Some(b) => self@ == JsonV::Bool(b),
                None => !(self@ is Bool),
            },
    {
        match self {
            Json::Bool(b) => Some(*b),
            _ => None,
        }
    }
}

} // verus!
