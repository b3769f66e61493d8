//! The deterministic journal codec: the guest's output as a canonical
//! byte string.
//!
//! Integers are little-endian fixed-width; each string is length-prefixed
//! ASCII over the hash alphabet (`0`-`9`, `a`-`f`, `x`); each list is
//! count-prefixed.  Field order is fixed, and a decode succeeds only when
//! it consumes the input exactly, so the encoding is canonical: a decoded
//! journal re-encodes to the very same bytes.

use vstd::prelude::*;

use crate::errors::AccumulatorError;
use crate::guest::GuestAppendResult;
use crate::guest::GuestOutput;
use crate::hex::is_lower_hex_digit;
use crate::mmr::str_views;
use vstd::string::StringExecFns;

verus! {

/// The characters a journal string may hold.
pub open spec fn is_journal_char(c: char) -> bool {
    c == 'x' || is_lower_hex_digit(c)
}

/// The byte of a journal character.
pub open spec fn char_byte(c: char) -> u8 {
    if c == '0' { 48 }
    else if c == '1' { 49 }
    else if c == '2' { 50 }
    else if c == '3' { 51 }
    else if c == '4' { 52 }
    else if c == '5' { 53 }
    else if c == '6' { 54 }
    else if c == '7' { 55 }
    else if c == '8' { 56 }
    else if c == '9' { 57 }
    else if c == 'a' { 97 }
    else if c == 'b' { 98 }
    else if c == 'c' { 99 }
    else if c == 'd' { 100 }
    else if c == 'e' { 101 }
    else if c == 'f' { 102 }
    else if c == 'x' { 120 }
    else { 0 }
}

/// The character of a journal byte.
pub open spec fn byte_char(b: u8) -> char {
    if b == 48 { '0' }
    else if b == 49 { '1' }
    else if b == 50 { '2' }
    else if b == 51 { '3' }
    else if b == 52 { '4' }
    else if b == 53 { '5' }
    else if b == 54 { '6' }
    else if b == 55 { '7' }
    else if b == 56 { '8' }
    else if b == 57 { '9' }
    else if b == 97 { 'a' }
    else if b == 98 { 'b' }
    else if b == 99 { 'c' }
    else if b == 100 { 'd' }
    else if b == 101 { 'e' }
    else if b == 102 { 'f' }
    else if b == 120 { 'x' }
    else { ' ' }
}

/// The bytes a journal string may hold.
pub open spec fn is_journal_byte(b: u8) -> bool {
    (48 <= b <= 57) || (97 <= b <= 102) || b == 120
}

/// A string over the journal alphabet.
pub open spec fn encodable_str(s: Seq<char>) -> bool {
    forall|i: int| 0 <= i < s.len() ==> is_journal_char(#[trigger] s[i])
}

/// The little-endian bytes of a `u64`.
pub open spec fn enc_u64(n: u64) -> Seq<u8> {
    seq![
        (n & 0xff) as u8,
        ((n >> 8) & 0xff) as u8,
        ((n >> 16) & 0xff) as u8,
        ((n >> 24) & 0xff) as u8,
        ((n >> 32) & 0xff) as u8,
        ((n >> 40) & 0xff) as u8,
        ((n >> 48) & 0xff) as u8,
        ((n >> 56) & 0xff) as u8,
    ]
}

/// The `u64` of eight little-endian bytes.
pub open spec fn dec_u64(b: Seq<u8>) -> u64 {
    (b[0] as u64 | ((b[1] as u64) << 8) | ((b[2] as u64) << 16) | ((b[3] as u64) << 24) | ((
    b[4] as u64) << 32) | ((b[5] as u64) << 40) | ((b[6] as u64) << 48) | ((b[7] as u64)
        << 56)) as u64
}

/// Eight little-endian bytes decode back to their `u64`.
pub proof fn lemma_u64_round_trip(n: u64)
    ensures
        dec_u64(enc_u64(n)) == n,
{
    let b0 = (n & 0xff) as u8;
    let b1 = ((n >> 8) & 0xff) as u8;
    let b2 = ((n >> 16) & 0xff) as u8;
    let b3 = ((n >> 24) & 0xff) as u8;
    let b4 = ((n >> 32) & 0xff) as u8;
    let b5 = ((n >> 40) & 0xff) as u8;
    let b6 = ((n >> 48) & 0xff) as u8;
    let b7 = ((n >> 56) & 0xff) as u8;
    assert((b0 as u64 | ((b1 as u64) << 8) | ((b2 as u64) << 16) | ((b3 as u64) << 24) | ((
    b4 as u64) << 32) | ((b5 as u64) << 40) | ((b6 as u64) << 48) | ((b7 as u64) << 56)) as u64
        == n) by (bit_vector)
        requires
            b0 == (n & 0xff) as u8,
            b1 == ((n >> 8) & 0xff) as u8,
            b2 == ((n >> 16) & 0xff) as u8,
            b3 == ((n >> 24) & 0xff) as u8,
            b4 == ((n >> 32) & 0xff) as u8,
            b5 == ((n >> 40) & 0xff) as u8,
            b6 == ((n >> 48) & 0xff) as u8,
            b7 == ((n >> 56) & 0xff) as u8,
    ;
}

/// The bytes of a journal string's characters.
pub open spec fn enc_chars(s: Seq<char>) -> Seq<u8> {
    s.map_values(|c: char| char_byte(c))
}

/// A length-prefixed journal string.
pub open spec fn enc_str(s: Seq<char>) -> Seq<u8> {
    enc_u64(s.len() as u64) + enc_chars(s)
}

/// A list of journal strings, encoded back to front.
pub open spec fn enc_str_list(v: Seq<Seq<char>>) -> Seq<u8>
    decreases v.len(),
{
    if v.len() == 0 {
        Seq::empty()
    } else {
        enc_str_list(v.drop_last()) + enc_str(v.last())
    }
}

/// A count-prefixed list of journal strings.
pub open spec fn enc_str_vec(v: Seq<Seq<char>>) -> Seq<u8> {
    enc_u64(v.len() as u64) + enc_str_list(v)
}

/// `(index, hash)` pairs, encoded back to front.
pub open spec fn enc_pair_list(v: Seq<(u64, Seq<char>)>) -> Seq<u8>
    decreases v.len(),
{
    if v.len() == 0 {
        Seq::empty()
    } else {
        enc_pair_list(v.drop_last()) + enc_u64(v.last().0) + enc_str(v.last().1)
    }
}

/// A count-prefixed list of `(index, hash)` pairs.
pub open spec fn enc_pair_vec(v: Seq<(u64, Seq<char>)>) -> Seq<u8> {
    enc_u64(v.len() as u64) + enc_pair_list(v)
}

/// The views of a pair vector.
pub open spec fn pair_views(v: Seq<(u64, String)>) -> Seq<(u64, Seq<char>)> {
    v.map_values(|p: (u64, String)| (p.0, p.1@))
}

/// The views of the append results, as `(index, hash)` pairs.
pub open spec fn append_views(v: Seq<GuestAppendResult>) -> Seq<(u64, Seq<char>)> {
    v.map_values(|a: GuestAppendResult| (a.element_index, a.root_hash@))
}

/// Whether every string of a guest output stays in the journal alphabet.
pub open spec fn encodable_output(go: GuestOutput) -> bool {
    &&& forall|i: int|
        0 <= i < str_views(go.final_peaks@).len() ==> encodable_str(
            #[trigger] str_views(go.final_peaks@)[i],
        )
    &&& forall|i: int|
        0 <= i < go.append_results@.len() ==> encodable_str(
            (#[trigger] go.append_results@[i]).root_hash@,
        )
    &&& encodable_str(go.root_hash@)
    &&& forall|i: int|
        0 <= i < go.all_hashes@.len() ==> encodable_str((#[trigger] go.all_hashes@[i]).1@)
}

/// The canonical journal of a guest output.
pub open spec fn enc_output(go: GuestOutput) -> Seq<u8> {
    enc_str_vec(str_views(go.final_peaks@)) + enc_u64(go.elements_count) + enc_u64(
        go.leaves_count,
    ) + enc_pair_vec(append_views(go.append_results@)) + enc_str(go.root_hash@) + enc_pair_vec(
        pair_views(go.all_hashes@),
    )
}

/// Eight bytes are exactly the encoding of the value they decode to.
pub proof fn lemma_u64_bytes_canonical(b: Seq<u8>)
    requires
        b.len() == 8,
    ensures
        enc_u64(dec_u64(b)) =~= b,
{
    let n = dec_u64(b);
    let b0 = b[0];
    let b1 = b[1];
    let b2 = b[2];
    let b3 = b[3];
    let b4 = b[4];
    let b5 = b[5];
    let b6 = b[6];
    let b7 = b[7];
    assert((n & 0xff) as u8 == b0 && ((n >> 8) & 0xff) as u8 == b1 && ((n >> 16) & 0xff) as u8
        == b2 && ((n >> 24) & 0xff) as u8 == b3 && ((n >> 32) & 0xff) as u8 == b4 && ((n >> 40)
        & 0xff) as u8 == b5 && ((n >> 48) & 0xff) as u8 == b6 && ((n >> 56) & 0xff) as u8 == b7)
        by (bit_vector)
        requires
            n == (b0 as u64 | ((b1 as u64) << 8) | ((b2 as u64) << 16) | ((b3 as u64) << 24) | (
            (b4 as u64) << 32) | ((b5 as u64) << 40) | ((b6 as u64) << 48) | ((b7 as u64)
                << 56)) as u64,
    ;
}

/// A decoded journal character re-encodes to its byte.
pub proof fn lemma_char_byte_canonical(b: u8)
    requires
        is_journal_byte(b),
    ensures
        is_journal_char(byte_char(b)),
        char_byte(byte_char(b)) == b,
{
}

/// Appends the little-endian bytes of `n`.
fn push_u64(out: &mut Vec<u8>, n: u64)
    ensures
        final(out)@ == old(out)@ + enc_u64(n),
{
    out.push((n & 0xff) as u8);
    out.push(((n >> 8) & 0xff) as u8);
    out.push(((n >> 16) & 0xff) as u8);
    out.push(((n >> 24) & 0xff) as u8);
    out.push(((n >> 32) & 0xff) as u8);
    out.push(((n >> 40) & 0xff) as u8);
    out.push(((n >> 48) & 0xff) as u8);
    out.push(((n >> 56) & 0xff) as u8);
    proof {
        assert(out@ =~= old(out)@ + enc_u64(n));
    }
}

/// The byte of a journal character, `None` outside the alphabet.
fn encode_char(c: char) -> (r: Option<u8>)
    ensures
        is_journal_char(c) ==> r == Some(char_byte(c)),
        !is_journal_char(c) ==> r is None,
{
    let u = c as u32;
    if (48 <= u && u <= 57) || (97 <= u && u <= 102) || u == 120 {
        Some(u as u8)
    } else {
        None
    }
}

/// Appends a length-prefixed journal string; `false` on a character
/// outside the alphabet, leaving `out` untouched.
fn push_str(out: &mut Vec<u8>, s: &String) -> (r: bool)
    ensures
        r <==> encodable_str(s@),
        r ==> final(out)@ == old(out)@ + enc_str(s@),
        !r ==> final(out)@ == old(out)@,
{
    let sref = s.as_str();
    let len = sref.unicode_len();
    let mut body: Vec<u8> = Vec::new();
    let mut i: usize = 0;
    while i < len
        invariant
            len == sref@.len(),
            sref@ == s@,
            i <= len,
            body@.len() == i,
            forall|j: int| 0 <= j < i ==> is_journal_char(#[trigger] sref@[j]),
            forall|j: int| 0 <= j < i ==> #[trigger] body@[j] == char_byte(sref@[j]),
        decreases len - i,
    {
        let c = sref.get_char(i);
        match encode_char(c) {
            Some(b) => {
                body.push(b);
            },
            None => {
                return false;
            },
        }
        i += 1;
    }
    push_u64(out, len as u64);
    let mut body_moved = body;
    out.append(&mut body_moved);
    proof {
        assert(out@ =~= old(out)@ + enc_str(s@));
    }
    true
}

/// Encodes a guest output as its canonical journal.  Succeeds exactly
/// when every string stays in the journal alphabet.
pub fn encode_guest_output(go: &GuestOutput) -> (r: Result<Vec<u8>, AccumulatorError>)
    ensures
        r is Ok <==> encodable_output(*go),
        r matches Ok(b) ==> b@ == enc_output(*go),
        r matches Err(e) ==> e matches AccumulatorError::InvalidInput(_),
{
    let mut out: Vec<u8> = Vec::new();
    push_u64(&mut out, go.final_peaks.len() as u64);
    let mut i: usize = 0;
    proof {
        assert(str_views(go.final_peaks@).take(0) =~= Seq::<Seq<char>>::empty());
        assert(out@ =~= enc_u64(go.final_peaks@.len() as u64) + enc_str_list(
            str_views(go.final_peaks@).take(0),
        ));
    }
    while i < go.final_peaks.len()
        invariant
            i <= go.final_peaks@.len(),
            out@ =~= enc_u64(go.final_peaks@.len() as u64) + enc_str_list(
                str_views(go.final_peaks@).take(i as int),
            ),
            forall|j: int| 0 <= j < i ==> encodable_str(#[trigger] str_views(go.final_peaks@)[j]),
        decreases go.final_peaks@.len() - i,
    {
        if !push_str(&mut out, &go.final_peaks[i]) {
            proof {
                assert(!encodable_str(str_views(go.final_peaks@)[i as int]));
            }
            return Err(AccumulatorError::InvalidInput(String::from_str(
                "guest output holds a hash outside the journal alphabet",
            )));
        }
        proof {
            let t1 = str_views(go.final_peaks@).take(i as int + 1);
            assert(t1.drop_last() =~= str_views(go.final_peaks@).take(i as int));
            assert(t1.last() == str_views(go.final_peaks@)[i as int]);
            assert(str_views(go.final_peaks@)[i as int] == go.final_peaks@[i as int]@);
            assert(out@ =~= enc_u64(go.final_peaks@.len() as u64) + enc_str_list(t1));
        }
        i += 1;
    }
    proof {
        assert(str_views(go.final_peaks@).take(go.final_peaks@.len() as int) =~= str_views(
            go.final_peaks@,
        ));
        assert(out@ =~= enc_str_vec(str_views(go.final_peaks@)));
    }
    push_u64(&mut out, go.elements_count);
    push_u64(&mut out, go.leaves_count);
    let ghost after_counters = out@;
    push_u64(&mut out, go.append_results.len() as u64);
    let mut a: usize = 0;
    proof {
        assert(append_views(go.append_results@).take(0) =~= Seq::<(u64, Seq<char>)>::empty());
        assert(out@ =~= after_counters + enc_u64(go.append_results@.len() as u64)
            + enc_pair_list(append_views(go.append_results@).take(0)));
    }
    while a < go.append_results.len()
        invariant
            a <= go.append_results@.len(),
            out@ =~= after_counters + enc_u64(go.append_results@.len() as u64) + enc_pair_list(
                append_views(go.append_results@).take(a as int),
            ),
            forall|j: int| 0 <= j < a ==> encodable_str(
                (#[trigger] go.append_results@[j]).root_hash@,
            ),
        decreases go.append_results@.len() - a,
    {
        push_u64(&mut out, go.append_results[a].element_index);
        if !push_str(&mut out, &go.append_results[a].root_hash) {
            return Err(AccumulatorError::InvalidInput(String::from_str(
                "guest output holds a hash outside the journal alphabet",
            )));
        }
        proof {
            let t1 = append_views(go.append_results@).take(a as int + 1);
            assert(t1.drop_last() =~= append_views(go.append_results@).take(a as int));
            assert(t1.last() == append_views(go.append_results@)[a as int]);
            assert(append_views(go.append_results@)[a as int] == (
                go.append_results@[a as int].element_index,
                go.append_results@[a as int].root_hash@,
            ));
            assert(out@ =~= after_counters + enc_u64(go.append_results@.len() as u64)
                + enc_pair_list(t1));
        }
        a += 1;
    }
    proof {
        assert(append_views(go.append_results@).take(go.append_results@.len() as int)
            =~= append_views(go.append_results@));
    }
    if !push_str(&mut out, &go.root_hash) {
        return Err(AccumulatorError::InvalidInput(String::from_str(
            "guest output holds a hash outside the journal alphabet",
        )));
    }
    let ghost after_root = out@;
    push_u64(&mut out, go.all_hashes.len() as u64);
    let mut h: usize = 0;
    proof {
        assert(pair_views(go.all_hashes@).take(0) =~= Seq::<(u64, Seq<char>)>::empty());
        assert(out@ =~= after_root + enc_u64(go.all_hashes@.len() as u64) + enc_pair_list(
            pair_views(go.all_hashes@).take(0),
        ));
    }
    while h < go.all_hashes.len()
        invariant
            h <= go.all_hashes@.len(),
            out@ =~= after_root + enc_u64(go.all_hashes@.len() as u64) + enc_pair_list(
                pair_views(go.all_hashes@).take(h as int),
            ),
            forall|j: int| 0 <= j < h ==> encodable_str((#[trigger] go.all_hashes@[j]).1@),
        decreases go.all_hashes@.len() - h,
    {
        push_u64(&mut out, go.all_hashes[h].0);
        if !push_str(&mut out, &go.all_hashes[h].1) {
            return Err(AccumulatorError::InvalidInput(String::from_str(
                "guest output holds a hash outside the journal alphabet",
            )));
        }
        proof {
            let t1 = pair_views(go.all_hashes@).take(h as int + 1);
            assert(t1.drop_last() =~= pair_views(go.all_hashes@).take(h as int));
            assert(t1.last() == pair_views(go.all_hashes@)[h as int]);
            assert(pair_views(go.all_hashes@)[h as int] == (
                go.all_hashes@[h as int].0,
                go.all_hashes@[h as int].1@,
            ));
            assert(out@ =~= after_root + enc_u64(go.all_hashes@.len() as u64) + enc_pair_list(
                t1,
            ));
        }
        h += 1;
    }
    proof {
        assert(pair_views(go.all_hashes@).take(go.all_hashes@.len() as int) =~= pair_views(
            go.all_hashes@,
        ));
        assert(out@ =~= enc_output(*go));
    }
    Ok(out)
}

/// Reads eight little-endian bytes at `pos`.
fn read_u64(bytes: &Vec<u8>, pos: usize) -> (r: Option<(u64, usize)>)
    ensures
        r matches Some(p) ==> pos + 8 <= bytes@.len() && p.1 == pos + 8 && enc_u64(p.0)
            =~= bytes@.subrange(pos as int, pos as int + 8),
        r is None ==> pos + 8 > bytes@.len(),
{
    if bytes.len() < 8 || pos > bytes.len() - 8 {
        return None;
    }
    let n = bytes[pos] as u64 | ((bytes[pos + 1] as u64) << 8) | ((bytes[pos + 2] as u64) << 16)
        | ((bytes[pos + 3] as u64) << 24) | ((bytes[pos + 4] as u64) << 32) | ((bytes[pos
        + 5] as u64) << 40) | ((bytes[pos + 6] as u64) << 48) | ((bytes[pos + 7] as u64) << 56);
    proof {
        let sub = bytes@.subrange(pos as int, pos as int + 8);
        assert(sub[0] == bytes@[pos as int]);
        assert(sub[1] == bytes@[pos as int + 1]);
        assert(sub[2] == bytes@[pos as int + 2]);
        assert(sub[3] == bytes@[pos as int + 3]);
        assert(sub[4] == bytes@[pos as int + 4]);
        assert(sub[5] == bytes@[pos as int + 5]);
        assert(sub[6] == bytes@[pos as int + 6]);
        assert(sub[7] == bytes@[pos as int + 7]);
        assert(n == dec_u64(sub));
        lemma_u64_bytes_canonical(sub);
    }
    Some((n, pos + 8))
}

/// Appends the character of a journal byte.
fn push_journal_char(s: &mut String, b: u8)
    requires
        is_journal_byte(b),
    ensures
        final(s)@ == old(s)@ + seq![byte_char(b)],
{
    if b == 120 {
        proof {
            reveal_strlit("x");
        }
        s.append("x");
        proof {
            assert(s@ =~= old(s)@ + seq![byte_char(b)]);
        }
    } else if b >= 97 {
        crate::hex::push_hex_digit(s, (b - 87) as u64);
        proof {
            assert(crate::hex::hex_char((b - 87) as nat) == byte_char(b));
            assert(s@ =~= old(s)@ + seq![byte_char(b)]);
        }
    } else {
        crate::hex::push_hex_digit(s, (b - 48) as u64);
        proof {
            assert(crate::hex::hex_char((b - 48) as nat) == byte_char(b));
            assert(s@ =~= old(s)@ + seq![byte_char(b)]);
        }
    }
}

/// Reads a length-prefixed journal string at `pos`.
fn read_str(bytes: &Vec<u8>, pos: usize) -> (r: Option<(String, usize)>)
    ensures
        r matches Some(p) ==> pos <= p.1 <= bytes@.len() && encodable_str(p.0@) && enc_str(
            p.0@,
        ) =~= bytes@.subrange(pos as int, p.1 as int),
{
    let (len, mut j) = match read_u64(bytes, pos) {
        Some(p) => p,
        None => {
            return None;
        },
    };
    if len > (bytes.len() - j) as u64 {
        return None;
    }
    let len_usize = len as usize;
    let end = j + len_usize;
    let ghost body_start = j as int;
    let mut out = String::new();
    proof {
        assert(out@ =~= Seq::<char>::empty());
    }
    let mut k: usize = j;
    while k < end
        invariant
            j <= k <= end,
            end <= bytes@.len(),
            body_start == j as int,
            out@.len() == k - j,
            forall|m: int| 0 <= m < out@.len() ==> is_journal_char(#[trigger] out@[m]),
            forall|m: int|
                0 <= m < out@.len() ==> char_byte(#[trigger] out@[m]) == bytes@[body_start + m],
        decreases end - k,
    {
        let b = bytes[k];
        let ok = (48 <= b && b <= 57) || (97 <= b && b <= 102) || b == 120;
        if !ok {
            return None;
        }
        let ghost out0 = out@;
        push_journal_char(&mut out, b);
        proof {
            lemma_char_byte_canonical(b);
            assert(out@.drop_last() =~= out0);
            assert(out@.last() == byte_char(b));
        }
        k += 1;
    }
    proof {
        assert(out@.len() == len);
        assert(enc_u64(len) =~= bytes@.subrange(pos as int, pos as int + 8));
        assert(enc_chars(out@) =~= bytes@.subrange(body_start, end as int));
        assert(enc_str(out@) =~= bytes@.subrange(pos as int, end as int));
    }
    Some((out, end))
}

/// Decodes a journal into a guest output.  A successful decode is
/// canonical: the output re-encodes to exactly the input bytes.
pub fn decode_journal(bytes: &Vec<u8>) -> (r: Result<GuestOutput, AccumulatorError>)
    ensures
        r matches Ok(go) ==> encodable_output(go) && bytes@ == enc_output(go),
        r matches Err(e) ==> e matches AccumulatorError::JournalDecode,
{
    let mut pos: usize = 0;
    // Peaks.
    let (peak_count, p1) = match read_u64(bytes, pos) {
        Some(p) => p,
        None => {
            return Err(AccumulatorError::JournalDecode);
        },
    };
    pos = p1;
    let mut final_peaks: Vec<String> = Vec::new();
    let mut k: u64 = 0;
    proof {
        assert(str_views(final_peaks@) =~= Seq::<Seq<char>>::empty());
        assert(enc_str_list(str_views(final_peaks@)) =~= Seq::<u8>::empty());
        assert(bytes@.subrange(8, pos as int) =~= enc_str_list(str_views(final_peaks@)));
    }
    while k < peak_count
        invariant
            k <= peak_count,
            final_peaks@.len() == k,
            8 <= pos <= bytes@.len(),
            bytes@.subrange(0, 8) =~= enc_u64(peak_count),
            bytes@.subrange(8, pos as int) =~= enc_str_list(str_views(final_peaks@)),
            forall|m: int|
                0 <= m < str_views(final_peaks@).len() ==> encodable_str(
                    #[trigger] str_views(final_peaks@)[m],
                ),
        decreases peak_count - k,
    {
        let ghost pos0 = pos as int;
        let ghost fp0 = final_peaks@;
        let (s, p2) = match read_str(bytes, pos) {
            Some(p) => p,
            None => {
                return Err(AccumulatorError::JournalDecode);
            },
        };
        let ghost sv = s@;
        final_peaks.push(s);
        pos = p2;
        proof {
            assert(final_peaks@.drop_last() =~= fp0);
            assert(final_peaks@.last()@ == sv);
            assert(str_views(final_peaks@).drop_last() =~= str_views(fp0));
            assert(str_views(final_peaks@).last() == sv);
            assert forall|m: int|
                0 <= m < str_views(final_peaks@).len() implies encodable_str(
                str_views(final_peaks@)[m],
            ) by {
                if m < str_views(final_peaks@).len() - 1 {
                    assert(str_views(final_peaks@)[m] == str_views(final_peaks@).drop_last()[m]);
                    assert(str_views(fp0)[m] == str_views(final_peaks@)[m]);
                } else {
                    assert(str_views(final_peaks@)[m] == sv);
                }
            }
            assert(enc_str_list(str_views(final_peaks@)) =~= enc_str_list(str_views(fp0))
                + enc_str(sv));
            assert(bytes@.subrange(8, pos as int) =~= bytes@.subrange(8, pos0) + bytes@.subrange(
                pos0,
                pos as int,
            ));
        }
        k += 1;
    }
    let ghost after_peaks = pos as int;
    proof {
        assert(final_peaks@.len() as u64 == peak_count);
        assert(bytes@.subrange(0, after_peaks) =~= bytes@.subrange(0, 8) + bytes@.subrange(
            8,
            after_peaks,
        ));
        assert(bytes@.subrange(0, after_peaks) =~= enc_str_vec(str_views(final_peaks@)));
    }
    // Counters.
    let (elements_count, p3) = match read_u64(bytes, pos) {
        Some(p) => p,
        None => {
            return Err(AccumulatorError::JournalDecode);
        },
    };
    pos = p3;
    let (leaves_count, p4) = match read_u64(bytes, pos) {
        Some(p) => p,
        None => {
            return Err(AccumulatorError::JournalDecode);
        },
    };
    pos = p4;
    let ghost after_counters = pos as int;
    proof {
        assert(bytes@.subrange(0, after_counters) =~= bytes@.subrange(0, after_peaks)
            + bytes@.subrange(after_peaks, after_peaks + 8) + bytes@.subrange(
            after_peaks + 8,
            after_counters,
        ));
        assert(bytes@.subrange(0, after_counters) =~= enc_str_vec(str_views(final_peaks@))
            + enc_u64(elements_count) + enc_u64(leaves_count));
    }
    // Append results.
    let (append_count, p5) = match read_u64(bytes, pos) {
        Some(p) => p,
        None => {
            return Err(AccumulatorError::JournalDecode);
        },
    };
    pos = p5;
    let ghost appends_base = pos as int;
    let mut append_results: Vec<GuestAppendResult> = Vec::new();
    let mut a: u64 = 0;
    proof {
        assert(append_views(append_results@) =~= Seq::<(u64, Seq<char>)>::empty());
        assert(enc_pair_list(append_views(append_results@)) =~= Seq::<u8>::empty());
        assert(bytes@.subrange(appends_base, pos as int) =~= enc_pair_list(
            append_views(append_results@),
        ));
    }
    while a < append_count
        invariant
            a <= append_count,
            append_results@.len() == a,
            appends_base + 8 >= 16,
            8 <= appends_base <= pos <= bytes@.len(),
            bytes@.subrange(appends_base - 8, appends_base) =~= enc_u64(append_count),
            bytes@.subrange(appends_base, pos as int) =~= enc_pair_list(
                append_views(append_results@),
            ),
            forall|m: int|
                0 <= m < append_results@.len() ==> encodable_str(
                    (#[trigger] append_results@[m]).root_hash@,
                ),
        decreases append_count - a,
    {
        let ghost pos0 = pos as int;
        let ghost ar0 = append_results@;
        let (idx, p6) = match read_u64(bytes, pos) {
            Some(p) => p,
            None => {
                return Err(AccumulatorError::JournalDecode);
            },
        };
        pos = p6;
        let (s, p7) = match read_str(bytes, pos) {
            Some(p) => p,
            None => {
                return Err(AccumulatorError::JournalDecode);
            },
        };
        let ghost sv = s@;
        let ghost mid = pos as int;
        append_results.push(GuestAppendResult { root_hash: s, element_index: idx });
        pos = p7;
        proof {
            assert(append_results@.drop_last() =~= ar0);
            assert(append_views(append_results@).drop_last() =~= append_views(ar0));
            assert(append_views(append_results@).last() == (idx, sv));
            assert(enc_pair_list(append_views(append_results@)) =~= enc_pair_list(
                append_views(ar0),
            ) + enc_u64(idx) + enc_str(sv));
            assert(bytes@.subrange(appends_base, pos as int) =~= bytes@.subrange(
                appends_base,
                pos0,
            ) + bytes@.subrange(pos0, mid) + bytes@.subrange(mid, pos as int));
        }
        a += 1;
    }
    let ghost after_appends = pos as int;
    proof {
        assert(append_results@.len() as u64 == append_count);
        assert(bytes@.subrange(0, after_appends) =~= bytes@.subrange(0, appends_base - 8)
            + bytes@.subrange(appends_base - 8, appends_base) + bytes@.subrange(
            appends_base,
            after_appends,
        ));
        assert(bytes@.subrange(0, after_appends) =~= enc_str_vec(str_views(final_peaks@))
            + enc_u64(elements_count) + enc_u64(leaves_count) + enc_pair_vec(
            append_views(append_results@),
        ));
    }
    // Root.
    let (root_hash, p8) = match read_str(bytes, pos) {
        Some(p) => p,
        None => {
            return Err(AccumulatorError::JournalDecode);
        },
    };
    let ghost root_start = pos as int;
    pos = p8;
    let ghost after_root = pos as int;
    proof {
        assert(bytes@.subrange(0, after_root) =~= bytes@.subrange(0, root_start)
            + bytes@.subrange(root_start, after_root));
        assert(bytes@.subrange(0, after_root) =~= enc_str_vec(str_views(final_peaks@)) + enc_u64(
            elements_count,
        ) + enc_u64(leaves_count) + enc_pair_vec(append_views(append_results@)) + enc_str(
            root_hash@,
        ));
    }
    // All hashes.
    let (hash_count, p9) = match read_u64(bytes, pos) {
        Some(p) => p,
        None => {
            return Err(AccumulatorError::JournalDecode);
        },
    };
    pos = p9;
    let ghost hashes_base = pos as int;
    let mut all_hashes: Vec<(u64, String)> = Vec::new();
    let mut h: u64 = 0;
    proof {
        assert(pair_views(all_hashes@) =~= Seq::<(u64, Seq<char>)>::empty());
        assert(enc_pair_list(pair_views(all_hashes@)) =~= Seq::<u8>::empty());
        assert(bytes@.subrange(hashes_base, pos as int) =~= enc_pair_list(
            pair_views(all_hashes@),
        ));
    }
    while h < hash_count
        invariant
            h <= hash_count,
            all_hashes@.len() == h,
            8 <= hashes_base <= pos <= bytes@.len(),
            bytes@.subrange(hashes_base - 8, hashes_base) =~= enc_u64(hash_count),
            bytes@.subrange(hashes_base, pos as int) =~= enc_pair_list(pair_views(all_hashes@)),
            forall|m: int|
                0 <= m < all_hashes@.len() ==> encodable_str((#[trigger] all_hashes@[m]).1@),
        decreases hash_count - h,
    {
        let ghost pos0 = pos as int;
        let ghost ah0 = all_hashes@;
        let (idx, p10) = match read_u64(bytes, pos) {
            Some(p) => p,
            None => {
                return Err(AccumulatorError::JournalDecode);
            },
        };
        pos = p10;
        let (s, p11) = match read_str(bytes, pos) {
            Some(p) => p,
            None => {
                return Err(AccumulatorError::JournalDecode);
            },
        };
        let ghost sv = s@;
        let ghost mid = pos as int;
        all_hashes.push((idx, s));
        pos = p11;
        proof {
            assert(all_hashes@.drop_last() =~= ah0);
            assert(pair_views(all_hashes@).drop_last() =~= pair_views(ah0));
            assert(pair_views(all_hashes@).last() == (idx, sv));
            assert(enc_pair_list(pair_views(all_hashes@)) =~= enc_pair_list(pair_views(ah0))
                + enc_u64(idx) + enc_str(sv));
            assert(bytes@.subrange(hashes_base, pos as int) =~= bytes@.subrange(
                hashes_base,
                pos0,
            ) + bytes@.subrange(pos0, mid) + bytes@.subrange(mid, pos as int));
        }
        h += 1;
    }
    if pos != bytes.len() {
        return Err(AccumulatorError::JournalDecode);
    }
    let go = GuestOutput::new(
        final_peaks,
        elements_count,
        leaves_count,
        append_results,
        root_hash,
        all_hashes,
    );
    proof {
        assert(all_hashes@.len() as u64 == hash_count);
        assert(bytes@.subrange(0, pos as int) =~= bytes@.subrange(0, hashes_base - 8)
            + bytes@.subrange(hashes_base - 8, hashes_base) + bytes@.subrange(
            hashes_base,
            pos as int,
        ));
        assert(bytes@.subrange(0, pos as int) =~= bytes@);
        assert(bytes@ =~= enc_output(go));
    }
    Ok(go)
}

} // verus!
