//! The durable record format for pipeline state.
//!
//! One line per step record: the template name and the failure message are
//! length-prefixed (counted in characters), the step index and the status
//! tag sit between single spaces:
//!
//! ```text
//! <name-len> SP <name> SP <index> SP C NL
//! <name-len> SP <name> SP <index> SP F SP <msg-len> SP <msg> NL
//! ```
//!
//! Length prefixes make the format unambiguous for arbitrary name and
//! message text; the decoder is specified alongside the encoder and proved
//! to invert it.

use crate::strutil::{digit_char, spec_dec};
use vstd::prelude::*;

verus! {

/// A recorded step status.
#[derive(Debug)]
pub enum EntryStatus {
    Completed,
    Failed(String),
}

/// The mathematical value of a recorded status.
pub enum SpecStatus {
    Completed,
    Failed(Seq<char>),
}

impl View for EntryStatus {
    type V = SpecStatus;

    open spec fn view(&self) -> SpecStatus {
        match self {
            EntryStatus::Completed => SpecStatus::Completed,
            EntryStatus::Failed(m) => SpecStatus::Failed(m@),
        }
    }
}

/// One record: a (template, step index) pair and its status.
#[derive(Debug)]
pub struct StateEntry {
    pub template: String,
    pub index: usize,
    pub status: EntryStatus,
}

/// The mathematical value of one record.
pub struct SpecEntry {
    pub template: Seq<char>,
    pub index: nat,
    pub status: SpecStatus,
}

impl View for StateEntry {
    type V = SpecEntry;

    open spec fn view(&self) -> SpecEntry {
        SpecEntry { template: self.template@, index: self.index as nat, status: self.status@ }
    }
}

/// The mathematical values of a record list.
pub open spec fn entries_view(es: Seq<StateEntry>) -> Seq<SpecEntry> {
    es.map_values(|e: StateEntry| e@)
}

// --- encoder ---------------------------------------------------------

/// Encoding of a status: a tag, and for failures the message text,
/// length-prefixed.
pub open spec fn enc_status(st: SpecStatus) -> Seq<char> {
    match st {
        SpecStatus::Completed => seq!['C', '\n'],
        SpecStatus::Failed(m) => seq!['F', ' '] + spec_dec(m.len()) + seq![' '] + m + seq!['\n'],
    }
}

/// Encoding of one record.
pub open spec fn enc_entry(e: SpecEntry) -> Seq<char> {
    spec_dec(e.template.len()) + seq![' '] + e.template + seq![' '] + spec_dec(e.index) + seq![' ']
        + enc_status(e.status)
}

/// Encoding of a record list: the records in order.
pub open spec fn enc_state(es: Seq<SpecEntry>) -> Seq<char>
    decreases es.len(),
{
    if es.len() == 0 {
        Seq::empty()
    } else {
        enc_entry(es[0]) + enc_state(es.skip(1))
    }
}

// --- decoder ---------------------------------------------------------

/// The value of a decimal digit character, or 10 for any other character.
pub open spec fn digit_of(c: char) -> nat {
    if c == '0' {
        0
    } else if c == '1' {
        1
    } else if c == '2' {
        2
    } else if c == '3' {
        3
    } else if c == '4' {
        4
    } else if c == '5' {
        5
    } else if c == '6' {
        6
    } else if c == '7' {
        7
    } else if c == '8' {
        8
    } else if c == '9' {
        9
    } else {
        10
    }
}

/// Whether `c` is a decimal digit.
pub open spec fn is_digit(c: char) -> bool {
    digit_of(c) < 10
}

/// Consume the digit run starting at `i`, folding it onto `acc`; yields the
/// accumulated value and the first position past the run.
pub open spec fn dec_nat_from(s: Seq<char>, i: int, acc: nat) -> (nat, int)
    decreases s.len() - i,
{
    if 0 <= i < s.len() && is_digit(s[i]) {
        dec_nat_from(s, i + 1, acc * 10 + digit_of(s[i]))
    } else {
        (acc, i)
    }
}

/// Decode the decimal number starting at `i`: at least one digit.
pub open spec fn dec_nat(s: Seq<char>, i: int) -> Option<(nat, int)> {
    if 0 <= i < s.len() && is_digit(s[i]) {
        Some(dec_nat_from(s, i, 0))
    } else {
        None
    }
}

/// Decode one record starting at `i`: the record and the position past it.
pub open spec fn dec_entry(s: Seq<char>, i: int) -> Option<(SpecEntry, int)> {
    match dec_nat(s, i) {
        None => None,
        Some((tlen, a)) => {
            if a < s.len() && s[a] == ' ' && a + 1 + tlen <= s.len() {
                let name = s.subrange(a + 1, a + 1 + tlen);
                let b = a + 1 + tlen;
                if b < s.len() && s[b] == ' ' {
                    match dec_nat(s, b + 1) {
                        None => None,
                        Some((idx, c)) => {
                            if c < s.len() && s[c] == ' ' {
                                dec_entry_status(s, c + 1, name, idx)
                            } else {
                                None
                            }
                        },
                    }
                } else {
                    None
                }
            } else {
                None
            }
        },
    }
}

/// Decode the status part of a record starting at `d`.
pub open spec fn dec_entry_status(s: Seq<char>, d: int, name: Seq<char>, idx: nat) -> Option<
    (SpecEntry, int),
> {
    if d < s.len() && s[d] == 'C' {
        if d + 1 < s.len() && s[d + 1] == '\n' {
            Some((SpecEntry { template: name, index: idx, status: SpecStatus::Completed }, d + 2))
        } else {
            None
        }
    } else if d < s.len() && s[d] == 'F' {
        if d + 1 < s.len() && s[d + 1] == ' ' {
            match dec_nat(s, d + 2) {
                None => None,
                Some((mlen, e)) => {
                    if e < s.len() && s[e] == ' ' && e + 1 + mlen <= s.len() {
                        let msg = s.subrange(e + 1, e + 1 + mlen);
                        let f = e + 1 + mlen;
                        if f < s.len() && s[f] == '\n' {
                            Some(
                                (
                                    SpecEntry {
                                        template: name,
                                        index: idx,
                                        status: SpecStatus::Failed(msg),
                                    },
                                    f + 1,
                                ),
                            )
                        } else {
                            None
                        }
                    } else {
                        None
                    }
                },
            }
        } else {
            None
        }
    } else {
        None
    }
}

/// Decode the record list from position `i` to the end of the text.
pub open spec fn dec_state_from(s: Seq<char>, i: int) -> Option<Seq<SpecEntry>>
    decreases s.len() - i,
{
    if i == s.len() {
        Some(Seq::empty())
    } else {
        match dec_entry(s, i) {
            Some((e, j)) => {
                if i < j <= s.len() {
                    match dec_state_from(s, j) {
                        Some(rest) => Some(seq![e] + rest),
                        None => None,
                    }
                } else {
                    None
                }
            },
            None => None,
        }
    }
}

/// Decode a whole record list.
pub open spec fn dec_state(s: Seq<char>) -> Option<Seq<SpecEntry>> {
    dec_state_from(s, 0)
}

/// Every index in the list is representable in a `usize`.
pub open spec fn bounded_entries(es: Seq<SpecEntry>) -> bool {
    forall|k: int| 0 <= k < es.len() ==> (#[trigger] es[k].index) <= usize::MAX
}

// --- the decoder inverts the encoder ---------------------------------

/// The fold the digit-run decoder computes over a digit string.
pub open spec fn combine(acc: nat, ds: Seq<char>) -> nat
    decreases ds.len(),
{
    if ds.len() == 0 {
        acc
    } else {
        combine(acc * 10 + digit_of(ds[0]), ds.skip(1))
    }
}

/// Decimal renderings are nonempty and all digits.
pub proof fn lemma_spec_dec_digits(n: nat)
    ensures
        spec_dec(n).len() >= 1,
        forall|j: int| 0 <= j < spec_dec(n).len() ==> is_digit(#[trigger] spec_dec(n)[j]),
        digit_of(digit_char(n % 10)) == n % 10,
    decreases n,
{
    if n >= 10 {
        lemma_spec_dec_digits(n / 10);
    }
    if n < 10 {
        assert(digit_of(digit_char(n)) == n);
    }
}

proof fn lemma_combine_push(acc: nat, ds: Seq<char>, d: char)
    ensures
        combine(acc, ds.push(d)) == combine(acc, ds) * 10 + digit_of(d),
    decreases ds.len(),
{
    if ds.len() == 0 {
        assert(ds.push(d)[0] == d);
        assert(ds.push(d).skip(1) =~= Seq::<char>::empty());
        assert(combine(acc * 10 + digit_of(d), Seq::<char>::empty()) == acc * 10 + digit_of(d));
    } else {
        assert(ds.push(d)[0] == ds[0]);
        assert(ds.push(d).skip(1) =~= ds.skip(1).push(d));
        lemma_combine_push(acc * 10 + digit_of(ds[0]), ds.skip(1), d);
    }
}

proof fn lemma_combine_spec_dec(n: nat)
    ensures
        combine(0, spec_dec(n)) == n,
    decreases n,
{
    if n < 10 {
        assert(spec_dec(n) =~= seq![digit_char(n)]);
        assert(spec_dec(n)[0] == digit_char(n));
        assert(spec_dec(n).skip(1) =~= Seq::<char>::empty());
        assert(digit_of(digit_char(n)) == n);
        assert(combine(digit_of(digit_char(n)), Seq::<char>::empty()) == n);
        assert(combine(0, spec_dec(n)) == combine(
            0 * 10 + digit_of(spec_dec(n)[0]),
            spec_dec(n).skip(1),
        ));
    } else {
        lemma_combine_spec_dec(n / 10);
        lemma_combine_push(0, spec_dec(n / 10), digit_char(n % 10));
        lemma_spec_dec_digits(n);
        vstd::arithmetic::div_mod::lemma_fundamental_div_mod(n as int, 10);
    }
}

proof fn lemma_dec_nat_from_run(s: Seq<char>, i: int, e: int, acc: nat)
    requires
        0 <= i <= e <= s.len(),
        forall|j: int| i <= j < e ==> is_digit(#[trigger] s[j]),
        e == s.len() || !is_digit(s[e]),
    ensures
        dec_nat_from(s, i, acc) == (combine(acc, s.subrange(i, e)), e),
    decreases e - i,
{
    if i == e {
        assert(s.subrange(i, e) =~= Seq::empty());
    } else {
        assert(is_digit(s[i]));
        let ds = s.subrange(i, e);
        assert(ds[0] == s[i]);
        assert(ds.skip(1) =~= s.subrange(i + 1, e));
        lemma_dec_nat_from_run(s, i + 1, e, acc * 10 + digit_of(s[i]));
    }
}

/// A decimal rendering embedded at `i`, followed by a non-digit or the end,
/// decodes to its value, consuming exactly the rendering.
pub proof fn lemma_dec_nat_at(s: Seq<char>, i: int, n: nat)
    requires
        0 <= i,
        i + spec_dec(n).len() <= s.len(),
        s.subrange(i, i + spec_dec(n).len() as int) == spec_dec(n),
        i + spec_dec(n).len() == s.len() || !is_digit(s[i + spec_dec(n).len()]),
    ensures
        dec_nat(s, i) == Some((n, i + spec_dec(n).len() as int)),
{
    lemma_spec_dec_digits(n);
    let ll = spec_dec(n).len() as int;
    assert(forall|j: int| i <= j < i + ll ==> is_digit(#[trigger] s[j])) by {
        assert forall|j: int| i <= j < i + ll implies is_digit(#[trigger] s[j]) by {
            assert(s[j] == s.subrange(i, i + ll)[j - i]);
        };
    }
    assert(s[i] == spec_dec(n)[0]);
    lemma_dec_nat_from_run(s, i, i + ll, 0);
    lemma_combine_spec_dec(n);
}

/// A subrange of an embedded sequence is the corresponding subrange of it.
proof fn lemma_embed_subrange(s: Seq<char>, w: Seq<char>, i: int, x: int, y: int)
    requires
        0 <= i,
        i + w.len() <= s.len(),
        s.subrange(i, i + w.len() as int) == w,
        0 <= x <= y <= w.len(),
    ensures
        s.subrange(i + x, i + y) == w.subrange(x, y),
{
    assert forall|k: int| 0 <= k < y - x implies s.subrange(i + x, i + y)[k] == w.subrange(x, y)[k] by {
        assert(s.subrange(i, i + w.len() as int)[x + k] == s[i + x + k]);
        assert(s.subrange(i + x, i + y)[k] == s[i + x + k]);
    };
    assert(s.subrange(i + x, i + y) =~= w.subrange(x, y));
}

/// A character of an embedded sequence is the corresponding character of it.
proof fn lemma_embed_index(s: Seq<char>, w: Seq<char>, i: int, x: int)
    requires
        0 <= i,
        i + w.len() <= s.len(),
        s.subrange(i, i + w.len() as int) == w,
        0 <= x < w.len(),
    ensures
        s[i + x] == w[x],
{
    assert(s.subrange(i, i + w.len() as int)[x] == s[i + x]);
}

/// One encoded record embedded at `i` decodes to the record, consuming
/// exactly its encoding.
pub proof fn lemma_dec_entry_of_enc(s: Seq<char>, i: int, e: SpecEntry)
    requires
        0 <= i,
        i + enc_entry(e).len() <= s.len(),
        s.subrange(i, i + enc_entry(e).len() as int) == enc_entry(e),
    ensures
        dec_entry(s, i) == Some((e, i + enc_entry(e).len() as int)),
{
    let w = enc_entry(e);
    let tl = e.template.len() as int;
    let la = spec_dec(e.template.len()).len() as int;
    let le = spec_dec(e.index).len() as int;
    let lw = w.len() as int;
    lemma_spec_dec_digits(e.template.len());
    lemma_spec_dec_digits(e.index);
    // offsets of the pieces within the encoding
    let o_t = la + 1;
    let o_s2 = o_t + tl;
    let o_e = o_s2 + 1;
    let o_s3 = o_e + le;
    let o_st = o_s3 + 1;
    // the name-length prefix decodes, stopped by the following space
    lemma_embed_subrange(s, w, i, 0, la);
    assert(w.subrange(0, la) =~= spec_dec(e.template.len()));
    lemma_embed_index(s, w, i, la);
    assert(w[la] == ' ');
    lemma_dec_nat_at(s, i, e.template.len());
    let a = i + la;
    assert(s[a] == ' ');
    // the name itself
    lemma_embed_subrange(s, w, i, o_t, o_s2);
    assert(w.subrange(o_t, o_s2) =~= e.template);
    assert(s.subrange(a + 1, a + 1 + tl) == e.template);
    lemma_embed_index(s, w, i, o_s2);
    assert(w[o_s2] == ' ');
    let b = a + 1 + tl;
    assert(s[b] == ' ');
    // the index decodes, stopped by the following space
    lemma_embed_subrange(s, w, i, o_e, o_s3);
    assert(w.subrange(o_e, o_s3) =~= spec_dec(e.index));
    lemma_embed_index(s, w, i, o_s3);
    assert(w[o_s3] == ' ');
    lemma_dec_nat_at(s, b + 1, e.index);
    let c = i + o_s3;
    assert(s[c] == ' ');
    let d = c + 1;
    match e.status {
        SpecStatus::Completed => {
            assert(enc_status(e.status) =~= seq!['C', '\n']);
            lemma_embed_index(s, w, i, o_st);
            assert(w[o_st] == 'C');
            lemma_embed_index(s, w, i, o_st + 1);
            assert(w[o_st + 1] == '\n');
            assert(s[d] == 'C');
            assert(s[d + 1] == '\n');
            assert(d + 2 == i + lw);
        },
        SpecStatus::Failed(m) => {
            let lm = m.len() as int;
            let lml = spec_dec(m.len()).len() as int;
            lemma_spec_dec_digits(m.len());
            let st = enc_status(e.status);
            assert(st =~= seq!['F', ' '] + spec_dec(m.len()) + seq![' '] + m + seq!['\n']);
            lemma_embed_index(s, w, i, o_st);
            assert(w[o_st] == st[0]);
            assert(st[0] == 'F');
            lemma_embed_index(s, w, i, o_st + 1);
            assert(w[o_st + 1] == st[1]);
            assert(st[1] == ' ');
            assert(s[d] == 'F');
            assert(s[d + 1] == ' ');
            // the message length decodes, stopped by the following space
            lemma_embed_subrange(s, w, i, o_st + 2, o_st + 2 + lml);
            assert(w.subrange(o_st + 2, o_st + 2 + lml) =~= spec_dec(m.len()));
            let ee = d + 2 + lml;
            lemma_embed_index(s, w, i, o_st + 2 + lml);
            assert(w[o_st + 2 + lml] == st[2 + lml]);
            assert(st[2 + lml] == ' ');
            assert(s[ee] == ' ');
            lemma_dec_nat_at(s, d + 2, m.len());
            // the message itself, closed by the newline
            lemma_embed_subrange(s, w, i, o_st + 3 + lml, o_st + 3 + lml + lm);
            assert(w.subrange(o_st + 3 + lml, o_st + 3 + lml + lm) =~= m);
            assert(s.subrange(ee + 1, ee + 1 + lm) == m);
            lemma_embed_index(s, w, i, o_st + 3 + lml + lm);
            assert(w[o_st + 3 + lml + lm] == st[3 + lml + lm]);
            assert(st[3 + lml + lm] == '\n');
            assert(s[ee + 1 + lm] == '\n');
            assert(ee + 1 + lm + 1 == i + lw);
        },
    }
}

proof fn lemma_dec_state_of_enc_from(s: Seq<char>, i: int, es: Seq<SpecEntry>)
    requires
        0 <= i <= s.len(),
        s.subrange(i, s.len() as int) == enc_state(es),
    ensures
        dec_state_from(s, i) == Some(es),
    decreases es.len(),
{
    if es.len() == 0 {
        assert(i == s.len());
    } else {
        let w = enc_entry(es[0]);
        let lw = w.len() as int;
        assert(enc_state(es) == w + enc_state(es.skip(1)));
        assert(i + lw <= s.len());
        let whole = enc_state(es);
        assert(i + whole.len() == s.len());
        lemma_embed_subrange(s, whole, i, 0, lw);
        assert(whole.subrange(0, lw) =~= w);
        assert(s.subrange(i, i + lw) == w);
        lemma_dec_entry_of_enc(s, i, es[0]);
        assert(lw >= 5);
        lemma_embed_subrange(s, whole, i, lw, whole.len() as int);
        assert(whole.subrange(lw, whole.len() as int) =~= enc_state(es.skip(1)));
        assert(s.subrange(i + lw, s.len() as int) == enc_state(es.skip(1)));
        lemma_dec_state_of_enc_from(s, i + lw, es.skip(1));
        assert(seq![es[0]] + es.skip(1) =~= es);
        assert(i != s.len()) by {
            assert(enc_state(es).len() >= lw);
        }
    }
}

/// Saving and loading round-trip: decoding an encoded record list yields
/// exactly the records that were encoded.
pub proof fn lemma_dec_state_of_enc(es: Seq<SpecEntry>)
    ensures
        dec_state(enc_state(es)) == Some(es),
{
    let s = enc_state(es);
    assert(s.subrange(0, s.len() as int) =~= s);
    lemma_dec_state_of_enc_from(s, 0, es);
}

// --- executable encoder ----------------------------------------------

proof fn lemma_enc_state_push(es: Seq<SpecEntry>, e: SpecEntry)
    ensures
        enc_state(es.push(e)) == enc_state(es) + enc_entry(e),
    decreases es.len(),
{
    if es.len() == 0 {
        assert(es.push(e)[0] == e);
        assert(es.push(e).skip(1) =~= Seq::<SpecEntry>::empty());
        assert(enc_state(Seq::<SpecEntry>::empty()) == Seq::<char>::empty());
        assert(enc_state(es.push(e)) =~= enc_entry(e));
        assert(enc_state(es) + enc_entry(e) =~= enc_entry(e));
    } else {
        assert(es.push(e)[0] == es[0]);
        assert(es.push(e).skip(1) =~= es.skip(1).push(e));
        lemma_enc_state_push(es.skip(1), e);
        assert(enc_entry(es[0]) + (enc_state(es.skip(1)) + enc_entry(e)) =~= (enc_entry(es[0])
            + enc_state(es.skip(1))) + enc_entry(e));
    }
}

/// Append the encoding of one record to `out`.
fn push_entry(out: &mut String, e: &StateEntry)
    ensures
        final(out)@ == old(out)@ + enc_entry(e@),
{
    proof {
        reveal_strlit(" ");
        reveal_strlit("C\n");
        reveal_strlit("F ");
        reveal_strlit("\n");
    }
    crate::strutil::push_dec(out, e.template.unicode_len());
    out.append(" ");
    out.append(e.template.as_str());
    out.append(" ");
    crate::strutil::push_dec(out, e.index);
    out.append(" ");
    match &e.status {
        EntryStatus::Completed => {
            out.append("C\n");
            proof {
                assert(" "@ =~= seq![' ']);
                assert("C\n"@ =~= seq!['C', '\n']);
                assert(out@ =~= old(out)@ + enc_entry(e@));
            }
        },
        EntryStatus::Failed(m) => {
            out.append("F ");
            crate::strutil::push_dec(out, m.unicode_len());
            out.append(" ");
            out.append(m.as_str());
            out.append("\n");
            proof {
                assert(" "@ =~= seq![' ']);
                assert("F "@ =~= seq!['F', ' ']);
                assert("\n"@ =~= seq!['\n']);
                assert(out@ =~= old(out)@ + enc_entry(e@));
            }
        },
    }
}

/// Encode a record list as text.
pub fn encode_entries(entries: &Vec<StateEntry>) -> (r: String)
    ensures
        r@ == enc_state(entries_view(entries@)),
{
    let mut out = String::new();
    let n = entries.len();
    let mut i: usize = 0;
    proof {
        assert(entries_view(entries@.take(0)) =~= Seq::<SpecEntry>::empty());
    }
    while i < n
        invariant
            n == entries@.len(),
            i <= n,
            out@ == enc_state(entries_view(entries@.take(i as int))),
        decreases n - i,
    {
        push_entry(&mut out, &entries[i]);
        proof {
            let prev = entries_view(entries@.take(i as int));
            let cur = entries_view(entries@.take(i + 1));
            assert(cur =~= prev.push(entries@[i as int]@));
            lemma_enc_state_push(prev, entries@[i as int]@);
        }
        i = i + 1;
    }
    proof {
        assert(entries@.take(n as int) =~= entries@);
    }
    out
}

// --- executable parser -----------------------------------------------

/// The value of a decimal digit character, or 10 for any other.
fn digit_val(c: char) -> (r: usize)
    ensures
        r == digit_of(c),
{
    if c == '0' {
        0
    } else if c == '1' {
        1
    } else if c == '2' {
        2
    } else if c == '3' {
        3
    } else if c == '4' {
        4
    } else if c == '5' {
        5
    } else if c == '6' {
        6
    } else if c == '7' {
        7
    } else if c == '8' {
        8
    } else if c == '9' {
        9
    } else {
        10
    }
}

proof fn lemma_dec_nat_from_ge(s: Seq<char>, i: int, acc: nat)
    ensures
        dec_nat_from(s, i, acc).0 >= acc,
        dec_nat_from(s, i, acc).1 >= i,
    decreases s.len() - i,
{
    if 0 <= i < s.len() && is_digit(s[i]) {
        lemma_dec_nat_from_ge(s, i + 1, acc * 10 + digit_of(s[i]));
    }
}

/// Decode the decimal number starting at `i`; `None` when no digit starts
/// there or the value does not fit in a `usize`.
fn parse_nat(s: &str, i: usize, slen: usize) -> (r: Option<(usize, usize)>)
    requires
        slen == s@.len(),
    ensures
        match r {
            Some((v, j)) => dec_nat(s@, i as int) == Some(((v as nat), (j as int))) && i < j
                <= slen,
            None => match dec_nat(s@, i as int) {
                Some(p) => p.0 > usize::MAX,
                None => true,
            },
        },
{
    if i >= slen {
        return None;
    }
    if digit_val(s.get_char(i)) >= 10 {
        return None;
    }
    let mut acc: usize = 0;
    let mut j: usize = i;
    loop
        invariant
            slen == s@.len(),
            i <= j <= slen,
            i < slen,
            is_digit(s@[i as int]),
            dec_nat_from(s@, i as int, 0) == dec_nat_from(s@, j as int, acc as nat),
        decreases slen - j,
    {
        if j >= slen {
            return Some((acc, j));
        }
        let c = s.get_char(j);
        let d = digit_val(c);
        if d >= 10 {
            return Some((acc, j));
        }
        if acc > (usize::MAX - d) / 10 {
            proof {
                let q = (usize::MAX - d) / 10;
                vstd::arithmetic::div_mod::lemma_fundamental_div_mod((usize::MAX - d) as int, 10);
                assert(acc * 10 >= (q + 1) * 10);
                lemma_dec_nat_from_ge(s@, j + 1, (acc * 10 + d) as nat);
            }
            return None;
        }
        acc = acc * 10 + d;
        j = j + 1;
    }
}

/// Decode one record starting at `i`; `None` when the text does not hold
/// one there or a number in it does not fit in a `usize`.
fn parse_entry(s: &str, i: usize, slen: usize) -> (r: Option<(StateEntry, usize)>)
    requires
        slen == s@.len(),
    ensures
        match r {
            Some(p) => dec_entry(s@, i as int) == Some((p.0@, p.1 as int)) && i < p.1 <= slen,
            None => match dec_entry(s@, i as int) {
                Some(q) => q.0.index > usize::MAX,
                None => true,
            },
        },
{
    let (tlen, a) = match parse_nat(s, i, slen) {
        Some(p) => p,
        None => {
            proof {
                // a decoded name length that overflows a usize also exceeds
                // the text length, so the decoder rejects the record too
                if dec_nat(s@, i as int) is Some {
                    lemma_dec_nat_from_ge(s@, i as int, 0);
                }
            }
            return None;
        },
    };
    if a >= slen || s.get_char(a) != ' ' {
        return None;
    }
    if tlen > slen - a - 1 {
        return None;
    }
    let b = a + 1 + tlen;
    let template = s.substring_char(a + 1, b).to_owned();
    if b >= slen || s.get_char(b) != ' ' {
        return None;
    }
    let (idx, c) = match parse_nat(s, b + 1, slen) {
        Some(p) => p,
        None => {
            // when the decoded step index overflows a usize, the decoder may
            // still accept the record; its index is then past usize::MAX
            return None;
        },
    };
    if c >= slen || s.get_char(c) != ' ' {
        return None;
    }
    let d = c + 1;
    if d < slen && s.get_char(d) == 'C' {
        if d + 1 < slen && s.get_char(d + 1) == '\n' {
            return Some((StateEntry { template, index: idx, status: EntryStatus::Completed }, d + 2));
        }
        return None;
    }
    if d < slen && s.get_char(d) == 'F' {
        if d + 1 >= slen || s.get_char(d + 1) != ' ' {
            return None;
        }
        let (mlen, e) = match parse_nat(s, d + 2, slen) {
            Some(p) => p,
            None => {
                proof {
                    // an overflowing message length also exceeds the text
                    // length, so the decoder rejects the record too
                    if dec_nat(s@, d + 2) is Some {
                        lemma_dec_nat_from_ge(s@, d + 2, 0);
                    }
                }
                return None;
            },
        };
        if e >= slen || s.get_char(e) != ' ' {
            return None;
        }
        if mlen > slen - e - 1 {
            return None;
        }
        let f = e + 1 + mlen;
        let msg = s.substring_char(e + 1, f).to_owned();
        if f < slen && s.get_char(f) == '\n' {
            return Some(
                (StateEntry { template, index: idx, status: EntryStatus::Failed(msg) }, f + 1),
            );
        }
        return None;
    }
    None
}

/// Decode a whole record list; `None` when the text is not a valid encoding
/// or a step index in it does not fit in a `usize`.
pub fn parse_entries(s: &str) -> (r: Option<Vec<StateEntry>>)
    ensures
        match r {
            Some(v) => dec_state(s@) == Some(entries_view(v@)),
            None => match dec_state(s@) {
                Some(es) => !bounded_entries(es),
                None => true,
            },
        },
{
    let slen = s.unicode_len();
    let mut out: Vec<StateEntry> = Vec::new();
    let mut i: usize = 0;
    proof {
        assert(entries_view(out@) =~= Seq::<SpecEntry>::empty());
    }
    while i < slen
        invariant
            slen == s@.len(),
            i <= slen,
            match dec_state_from(s@, i as int) {
                Some(rest) => dec_state(s@) == Some(entries_view(out@) + rest),
                None => dec_state(s@) is None,
            },
        decreases slen - i,
    {
        match parse_entry(s, i, slen) {
            Some((entry, j)) => {
                let ghost prev = entries_view(out@);
                let ghost ev = entry@;
                out.push(entry);
                proof {
                    assert(entries_view(out@) =~= prev.push(ev));
                    if dec_state_from(s@, j as int) is Some {
                        let rest = dec_state_from(s@, j as int)->Some_0;
                        assert(dec_state_from(s@, i as int) == Some(seq![ev] + rest));
                        assert(prev + (seq![ev] + rest) =~= prev.push(ev) + rest);
                    } else {
                        assert(dec_state_from(s@, i as int) is None);
                    }
                }
                i = j;
            },
            None => {
                proof {
                    match dec_entry(s@, i as int) {
                        Some((q, jj)) => {
                            // the record decoded, but its index overflows;
                            // the decoded list, if any, holds that record
                            if dec_state_from(s@, i as int) is Some {
                                let rest = dec_state_from(s@, i as int)->Some_0;
                                let whole = dec_state(s@)->Some_0;
                                let k = entries_view(out@).len() as int;
                                assert(whole[k] == q);
                                assert(!bounded_entries(whole));
                            }
                        },
                        None => {
                            assert(dec_state_from(s@, i as int) is None);
                        },
                    }
                }
                return None;
            },
        }
    }
    proof {
        assert(dec_state_from(s@, slen as int) == Some(Seq::<SpecEntry>::empty()));
        assert(entries_view(out@) + Seq::<SpecEntry>::empty() =~= entries_view(out@));
    }
    Some(out)
}

} // verus!
