//! The chunker: splits a notification payload too large for one message
//! into an ordered sequence of bounded-size messages.
//!
//! Fields are byte strings (name, text, inline flag). If everything fits
//! inside the size budget, one message goes out unchanged but for a
//! trailing colon on the first field's name. Otherwise the payload is cut
//! greedily: a single-field payload at a fixed per-chunk capacity, a
//! two-field payload under a shared budget where each field is capped at
//! half until the other is exhausted. At most ten chunks are produced;
//! content beyond that is dropped as an explicit resource bound.

use vstd::prelude::*;

use crate::strutil::dec_rep;

verus! {

/// Size budget of one message.
pub const MAX_EMBED_SIZE: usize = 1010;

/// Hard cutoff: no payload produces more chunks than this.
pub const MAX_CHUNKS: usize = 10;

/// Bytes set aside per chunk for the position label on the first field's
/// name.
pub const LABEL_ALLOWANCE: usize = 6;

/// One field of an embed payload: a name, a byte text and the sink's
/// inline flag.
#[derive(Debug, Clone)]
pub struct EmbedField {
    pub name: Vec<u8>,
    pub text: Vec<u8>,
    pub inline: bool,
}

/// Mathematical view of an `EmbedField`.
#[verifier::ext_equal]
pub struct FieldV {
    pub name: Seq<u8>,
    pub text: Seq<u8>,
    pub inline: bool,
}

impl View for EmbedField {
    type V = FieldV;

    open spec fn view(&self) -> FieldV {
        FieldV { name: self.name@, text: self.text@, inline: self.inline }
    }
}

/// View of a list of fields.
pub open spec fn fields_view(s: Seq<EmbedField>) -> Seq<FieldV> {
    s.map_values(|f: EmbedField| f@)
}

/// View of a list of messages, each a list of fields.
pub open spec fn chunks_view(s: Seq<Vec<EmbedField>>) -> Seq<Seq<FieldV>> {
    s.map_values(|m: Vec<EmbedField>| fields_view(m@))
}

/// Decimal digits of a nonnegative integer as bytes.
pub open spec fn dec_bytes(n: int) -> Seq<u8> {
    dec_rep(n).map_values(|c: char| c as u8)
}

/// The position label appended to the first field's name of chunk `i` of
/// `total`: an open parenthesis, the index, a slash, the total and a
/// closing parenthesis with a colon.
pub open spec fn chunk_label(i: int, total: int) -> Seq<u8> {
    seq![32u8, 40u8] + dec_bytes(i) + seq![47u8] + dec_bytes(total) + seq![41u8, 58u8]
}

/// Combined size of a payload: one byte of framing plus every field's
/// name and text.
pub open spec fn spec_single_size(s: Seq<FieldV>) -> int
    decreases s.len(),
{
    if s.len() == 0 {
        1
    } else {
        spec_single_size(s.drop_last()) + s.last().name.len() + s.last().text.len()
    }
}

/// Per-chunk text capacity for a single-field payload.
pub open spec fn single_cap(name_len: int) -> int {
    MAX_EMBED_SIZE - name_len - LABEL_ALLOWANCE
}

/// Chunk `i` (zero-based) of the greedy single-field cut: the name with
/// its position label, and the `i`-th capacity-sized slice of the text.
pub open spec fn spec_single_chunk(f: FieldV, cap: int, total: int, i: int) -> Seq<FieldV> {
    seq![
        FieldV {
            name: f.name + chunk_label(i + 1, total),
            text: f.text.subrange(
                i * cap,
                if (i + 1) * cap <= f.text.len() {
                    (i + 1) * cap
                } else {
                    f.text.len() as int
                },
            ),
            inline: f.inline,
        },
    ]
}

/// The messages of the greedy single-field cut, up to the cutoff.
pub open spec fn spec_single_chunks(f: FieldV) -> Seq<Seq<FieldV>> {
    let cap = single_cap(f.name.len() as int);
    let total = spec_total_single(f.text.len() as int, cap);
    let k = if total <= MAX_CHUNKS {
        total
    } else {
        MAX_CHUNKS as int
    };
    Seq::new(k as nat, |i: int| spec_single_chunk(f, cap, total, i))
}

/// The single message emitted when the payload fits the budget: the
/// fields unchanged but for a trailing colon on the first field's name.
pub open spec fn spec_fitting_message(s: Seq<FieldV>) -> Seq<Seq<FieldV>> {
    seq![s.update(0, FieldV { name: s[0].name + seq![58u8], ..s[0] })]
}

/// Copy of a byte range of a vector.
pub fn bytes_slice(v: &Vec<u8>, from: usize, to: usize) -> (r: Vec<u8>)
    requires
        from <= to <= v@.len(),
    ensures
        r@ == v@.subrange(from as int, to as int),
{
    let mut r: Vec<u8> = Vec::new();
    let mut i: usize = from;
    while i < to
        invariant
            from <= i <= to <= v@.len(),
            r@ == v@.subrange(from as int, i as int),
        decreases to - i,
    {
        r.push(v[i]);
        i += 1;
        proof {
            assert(r@ =~= v@.subrange(from as int, i as int));
        }
    }
    r
}

/// Renders a value in decimal as bytes, most significant digit first.
pub fn u64_to_bytes(n: u64) -> (r: Vec<u8>)
    ensures
        r@ == dec_bytes(n as int),
    decreases n,
{
    if n < 10 {
        let mut v: Vec<u8> = Vec::new();
        v.push(48 + (n as u8));
        proof {
            assert(dec_rep(n as int) == seq![crate::strutil::digit_char(n as int)]);
            assert(crate::strutil::digit_char(n as int) as u8 == 48 + n);
            assert(v@ =~= dec_bytes(n as int));
        }
        v
    } else {
        let mut v = u64_to_bytes(n / 10);
        let d = (n % 10) as u8;
        v.push(48 + d);
        proof {
            assert(crate::strutil::digit_char((n % 10) as int) as u8 == 48 + (n % 10));
            assert(v@ =~= dec_bytes(n as int));
        }
        v
    }
}

/// The first field's name with the position label of chunk `i` of
/// `total` appended.
fn labeled_name(name: &Vec<u8>, i: u64, total: u64) -> (r: Vec<u8>)
    ensures
        r@ == name@ + chunk_label(i as int, total as int),
{
    let mut r: Vec<u8> = Vec::new();
    let mut j: usize = 0;
    while j < name.len()
        invariant
            j <= name@.len(),
            r@ == name@.subrange(0, j as int),
        decreases name@.len() - j,
    {
        r.push(name[j]);
        j += 1;
        proof {
            assert(r@ =~= name@.subrange(0, j as int));
        }
    }
    proof {
        assert(name@.subrange(0, name@.len() as int) =~= name@);
    }
    r.push(32);
    r.push(40);
    let mut idx_bytes = u64_to_bytes(i);
    let mut k: usize = 0;
    while k < idx_bytes.len()
        invariant
            k <= idx_bytes@.len(),
            r@ == name@ + seq![32u8, 40u8] + idx_bytes@.subrange(0, k as int),
            idx_bytes@ == dec_bytes(i as int),
        decreases idx_bytes@.len() - k,
    {
        r.push(idx_bytes[k]);
        k += 1;
        proof {
            assert(r@ =~= name@ + seq![32u8, 40u8] + idx_bytes@.subrange(0, k as int));
        }
    }
    proof {
        assert(idx_bytes@.subrange(0, idx_bytes@.len() as int) =~= idx_bytes@);
    }
    r.push(47);
    let total_bytes = u64_to_bytes(total);
    let mut k2: usize = 0;
    while k2 < total_bytes.len()
        invariant
            k2 <= total_bytes@.len(),
            r@ == name@ + seq![32u8, 40u8] + dec_bytes(i as int) + seq![47u8]
                + total_bytes@.subrange(0, k2 as int),
            total_bytes@ == dec_bytes(total as int),
        decreases total_bytes@.len() - k2,
    {
        r.push(total_bytes[k2]);
        k2 += 1;
        proof {
            assert(r@ =~= name@ + seq![32u8, 40u8] + dec_bytes(i as int) + seq![47u8]
                + total_bytes@.subrange(0, k2 as int));
        }
    }
    proof {
        assert(total_bytes@.subrange(0, total_bytes@.len() as int) =~= total_bytes@);
    }
    r.push(41);
    r.push(58);
    proof {
        assert(r@ =~= name@ + chunk_label(i as int, total as int));
    }
    r
}

/// Combined size of the payload: one byte of framing plus every field's
/// name and text.
pub fn calculate_single_size(fields: &Vec<EmbedField>) -> (r: usize)
    requires
        spec_single_size(fields_view(fields@)) <= usize::MAX,
    ensures
        r == spec_single_size(fields_view(fields@)),
{
    let ghost fv = fields_view(fields@);
    let mut size: usize = 1;
    let mut i: usize = 0;
    while i < fields.len()
        invariant
            i <= fields.len(),
            fv == fields_view(fields@),
            spec_single_size(fv) <= usize::MAX,
            size == spec_single_size(fv.take(i as int)),
        decreases fields.len() - i,
    {
        proof {
            assert(fv.take(i as int + 1).drop_last() =~= fv.take(i as int));
            assert(fv.take(i as int + 1).last() == fv[i as int]);
            lemma_single_size_prefix(fv, i as int + 1);
        }
        size = size + fields[i].name.len() + fields[i].text.len();
        i += 1;
    }
    proof {
        assert(fv.take(fv.len() as int) =~= fv);
    }
    size
}

/// A prefix of the payload never exceeds the whole payload's size.
proof fn lemma_single_size_prefix(s: Seq<FieldV>, k: int)
    requires
        0 <= k <= s.len(),
    ensures
        spec_single_size(s.take(k)) <= spec_single_size(s),
        spec_single_size(s.take(k)) >= 1,
    decreases s.len() - k,
{
    if k == s.len() {
        assert(s.take(k) =~= s);
        lemma_single_size_nonneg(s);
    } else {
        lemma_single_size_prefix(s, k + 1);
        assert(s.take(k + 1).drop_last() =~= s.take(k));
        assert(spec_single_size(s.take(k + 1)) == spec_single_size(s.take(k)) + s[k].name.len()
            + s[k].text.len());
        lemma_single_size_nonneg(s.take(k));
    }
}

/// A payload's size is at least its framing byte.
proof fn lemma_single_size_nonneg(s: Seq<FieldV>)
    ensures
        spec_single_size(s) >= 1,
    decreases s.len(),
{
    if s.len() > 0 {
        lemma_single_size_nonneg(s.drop_last());
    }
}



/// The smaller of two integers.
pub open spec fn min2(a: int, b: int) -> int {
    if a <= b {
        a
    } else {
        b
    }
}

/// Number of chunks the greedy cut of `text_len` bytes at capacity `cap`
/// produces, without the cutoff.
pub open spec fn spec_total_single_rec(text_len: int, cap: int) -> int
    decreases text_len,
{
    if cap < 1 || text_len <= 0 {
        0
    } else if text_len <= cap {
        1
    } else {
        1 + spec_total_single_rec(text_len - cap, cap)
    }
}

/// The greedy cut covers the text: the last chunk ends at or past the
/// text's end, and the one before it ends inside the text.
pub proof fn lemma_total_single_bounds(text_len: int, cap: int)
    requires
        cap >= 1,
        text_len >= 0,
    ensures
        spec_total_single_rec(text_len, cap) * cap >= text_len,
        text_len > 0 ==> (spec_total_single_rec(text_len, cap) - 1) * cap < text_len,
        spec_total_single_rec(text_len, cap) >= 0,
        spec_total_single_rec(text_len, cap) <= text_len,
    decreases text_len,
{
    if text_len <= 0 {
    } else if text_len <= cap {
        assert((1 - 1) * cap == 0);
        assert(1 * cap == cap) by (nonlinear_arith);
    } else {
        lemma_total_single_bounds(text_len - cap, cap);
        let t = spec_total_single_rec(text_len - cap, cap);
        assert((t + 1) * cap == t * cap + cap) by (nonlinear_arith);
        assert((t - 1) * cap + cap == t * cap) by (nonlinear_arith);
        assert((t - 1) * cap < text_len - cap);
        assert(t * cap < text_len);
    }
}

/// Number of chunks the greedy single-field cut produces, without the
/// cutoff.
pub open spec fn spec_total_single(text_len: int, cap: int) -> int {
    spec_total_single_rec(text_len, cap)
}


/// Half-budget text capacity per chunk of a two-field payload.
pub open spec fn two_half_cap(max_size: int, n1: int, n2: int) -> int {
    max_size / 2 - n1 - n2 - LABEL_ALLOWANCE
}

/// Full-budget text capacity per chunk once the other field is
/// exhausted.
pub open spec fn two_full_cap(max_size: int, n1: int, n2: int) -> int {
    max_size - n1 - n2 - LABEL_ALLOWANCE
}

/// Bytes one field contributes to the next chunk: nothing when it is
/// exhausted, up to the full budget when the other field is exhausted,
/// and up to half the budget otherwise.
pub open spec fn take_amount(rem: int, other_rem: int, half: int, full: int) -> int {
    if rem <= 0 {
        0
    } else if other_rem <= 0 {
        min2(rem, full)
    } else {
        min2(rem, half)
    }
}

/// Number of chunks the greedy two-field cut produces, without the
/// cutoff.
pub open spec fn spec_two_total(r1: int, r2: int, half: int, full: int) -> int
    decreases r1 + r2,
{
    if half < 1 || full < half {
        0
    } else if r1 <= 0 && r2 <= 0 {
        0
    } else {
        let t1 = take_amount(r1, r2, half, full);
        let t2 = take_amount(r2, r1, half, full);
        if r1 - t1 + r2 - t2 < r1 + r2 && r1 - t1 >= 0 && r2 - t2 >= 0 {
            1 + spec_two_total(r1 - t1, r2 - t2, half, full)
        } else {
            1
        }
    }
}

/// The messages of the greedy two-field cut from positions `p1`, `p2`
/// and chunk number `idx` on, up to the cutoff. The first field's part
/// carries the position label; a part is present only while its field
/// has text left.
pub open spec fn spec_two_chunks_from(
    f1: FieldV,
    f2: FieldV,
    p1: int,
    p2: int,
    idx: int,
    total: int,
    half: int,
    full: int,
) -> Seq<Seq<FieldV>>
    decreases (MAX_CHUNKS + 1) - idx,
{
    let l1 = f1.text.len() as int;
    let l2 = f2.text.len() as int;
    if idx > MAX_CHUNKS || idx < 1 || half < 1 || p1 < 0 || p2 < 0 || (p1 >= l1 && p2 >= l2) {
        Seq::empty()
    } else {
        let t1 = take_amount(l1 - p1, l2 - p2, half, full);
        let t2 = take_amount(l2 - p2, l1 - p1, half, full);
        let part1: Seq<FieldV> = if t1 > 0 {
            seq![
                FieldV {
                    name: f1.name + chunk_label(idx, total),
                    text: f1.text.subrange(p1, p1 + t1),
                    inline: f1.inline,
                },
            ]
        } else {
            Seq::empty()
        };
        let part2: Seq<FieldV> = if t2 > 0 {
            seq![FieldV { name: f2.name, text: f2.text.subrange(p2, p2 + t2), inline: f2.inline }]
        } else {
            Seq::empty()
        };
        seq![part1 + part2] + spec_two_chunks_from(f1, f2, p1 + t1, p2 + t2, idx + 1, total, half, full)
    }
}

/// The whole chunking decision for a payload of one or two fields: one
/// message when it fits the budget, else the greedy cut.
pub open spec fn spec_create_embeds(s: Seq<FieldV>) -> Seq<Seq<FieldV>> {
    if spec_single_size(s) <= MAX_EMBED_SIZE {
        spec_fitting_message(s)
    } else if s.len() == 1 {
        spec_single_chunks(s[0])
    } else {
        let half = two_half_cap(MAX_EMBED_SIZE as int, s[0].name.len() as int, s[1].name.len() as int);
        let full = two_full_cap(MAX_EMBED_SIZE as int, s[0].name.len() as int, s[1].name.len() as int);
        let total = spec_two_total(s[0].text.len() as int, s[1].text.len() as int, half, full);
        spec_two_chunks_from(s[0], s[1], 0, 0, 1, total, half, full)
    }
}

/// Dry-run of the greedy cut: the number of chunks the payload will be
/// split into at the given size budget, without the ten-chunk cutoff.
pub fn calculate_total_parts(fields: &Vec<EmbedField>, max_size: usize) -> (r: usize)
    requires
        1 <= fields@.len() <= 2,
        fields@.len() == 1 ==> fields@[0]@.name.len() + LABEL_ALLOWANCE < max_size,
        fields@.len() == 2 ==> fields@[0]@.name.len() + fields@[1]@.name.len() + LABEL_ALLOWANCE
            < max_size / 2,
        fields@.len() == 2 ==> fields@[0]@.text.len() + fields@[1]@.text.len() <= usize::MAX,
    ensures
        fields@.len() == 1 ==> r == spec_total_single(
            fields@[0]@.text.len() as int,
            max_size - fields@[0]@.name.len() - LABEL_ALLOWANCE,
        ),
        fields@.len() == 2 ==> r == spec_two_total(
            fields@[0]@.text.len() as int,
            fields@[1]@.text.len() as int,
            two_half_cap(max_size as int, fields@[0]@.name.len() as int, fields@[1]@.name.len() as int),
            two_full_cap(max_size as int, fields@[0]@.name.len() as int, fields@[1]@.name.len() as int),
        ),
{
    if fields.len() == 1 {
        let cap = max_size - fields[0].name.len() - LABEL_ALLOWANCE;
        let l: usize = fields[0].text.len();
        let ghost cap_i = cap as int;
        let mut rem: usize = l;
        let mut amount: usize = 0;
        while rem > 0
            invariant
                cap == cap_i,
                cap >= 1,
                amount + rem <= l,
                rem <= l,
                amount + spec_total_single_rec(rem as int, cap_i) == spec_total_single_rec(
                    l as int,
                    cap_i,
                ),
            decreases rem,
        {
            amount += 1;
            if rem > cap {
                rem -= cap;
            } else {
                rem = 0;
            }
            proof {
                lemma_total_single_bounds(l as int, cap_i);
            }
        }
        amount
    } else {
        let n1 = fields[0].name.len();
        let n2 = fields[1].name.len();
        let half = max_size / 2 - n1 - n2 - LABEL_ALLOWANCE;
        let full = max_size - n1 - n2 - LABEL_ALLOWANCE;
        let ghost half_i = half as int;
        let ghost full_i = full as int;
        proof {
            assert(half_i == two_half_cap(max_size as int, n1 as int, n2 as int));
            assert(full_i == two_full_cap(max_size as int, n1 as int, n2 as int));
            assert(full_i >= half_i >= 1);
        }
        let l1: usize = fields[0].text.len();
        let l2: usize = fields[1].text.len();
        let mut r1: usize = l1;
        let mut r2: usize = l2;
        let mut amount: usize = 0;
        while r1 > 0 || r2 > 0
            invariant
                half == half_i,
                full == full_i,
                full_i >= half_i >= 1,
                r1 <= l1,
                r2 <= l2,
                l1 + l2 <= usize::MAX,
                amount + r1 + r2 <= l1 + l2,
                amount + spec_two_total(r1 as int, r2 as int, half_i, full_i) == spec_two_total(
                    l1 as int,
                    l2 as int,
                    half_i,
                    full_i,
                ),
            decreases r1 + r2,
        {
            let t1: usize = if r1 == 0 {
                0
            } else if r2 == 0 {
                if r1 <= full {
                    r1
                } else {
                    full
                }
            } else {
                if r1 <= half {
                    r1
                } else {
                    half
                }
            };
            let t2: usize = if r2 == 0 {
                0
            } else if r1 == 0 {
                if r2 <= full {
                    r2
                } else {
                    full
                }
            } else {
                if r2 <= half {
                    r2
                } else {
                    half
                }
            };
            proof {
                assert(t1 == take_amount(r1 as int, r2 as int, half_i, full_i));
                assert(t2 == take_amount(r2 as int, r1 as int, half_i, full_i));
                lemma_two_total_bound(l1 as int, l2 as int, half_i, full_i);
            }
            amount += 1;
            r1 -= t1;
            r2 -= t2;
        }
        amount
    }
}

/// The two-field cut makes no more chunks than the payload has bytes.
pub proof fn lemma_two_total_bound(r1: int, r2: int, half: int, full: int)
    requires
        r1 >= 0,
        r2 >= 0,
    ensures
        spec_two_total(r1, r2, half, full) <= r1 + r2,
        spec_two_total(r1, r2, half, full) >= 0,
    decreases r1 + r2,
{
    if half < 1 || full < half {
    } else if r1 <= 0 && r2 <= 0 {
    } else {
        let t1 = take_amount(r1, r2, half, full);
        let t2 = take_amount(r2, r1, half, full);
        if r1 - t1 + r2 - t2 < r1 + r2 && r1 - t1 >= 0 && r2 - t2 >= 0 {
            lemma_two_total_bound(r1 - t1, r2 - t2, half, full);
        }
    }
}


/// Copy of a field with the same view.
impl EmbedField {
    /// Copy whose view equals the original's.
    pub fn duplicate(&self) -> (r: EmbedField)
        ensures
            r@ == self@,
    {
        let r = EmbedField {
            name: bytes_slice(&self.name, 0, self.name.len()),
            text: bytes_slice(&self.text, 0, self.text.len()),
            inline: self.inline,
        };
        proof {
            assert(self.name@.subrange(0, self.name@.len() as int) =~= self.name@);
            assert(self.text@.subrange(0, self.text@.len() as int) =~= self.text@);
            assert(r@ =~= self@);
        }
        r
    }
}

/// Splits a payload of one or two fields into bounded-size messages; see
/// [`spec_create_embeds`]. A payload inside the budget goes out as one
/// message, with a colon appended to the first field's name; a larger
/// one is cut greedily, every chunk labeled with its position, and no
/// more than ten chunks are produced.
pub fn create_embeds_after_size(fields: &Vec<EmbedField>) -> (r: Vec<Vec<EmbedField>>)
    requires
        1 <= fields@.len() <= 2,
        spec_single_size(fields_view(fields@)) <= usize::MAX,
        fields@[0]@.name.len() + LABEL_ALLOWANCE < MAX_EMBED_SIZE,
        fields@.len() == 2 ==> fields@[0]@.name.len() + fields@[1]@.name.len() + LABEL_ALLOWANCE
            < MAX_EMBED_SIZE / 2,
        fields@.len() == 2 ==> fields@[0]@.text.len() + fields@[1]@.text.len() <= usize::MAX,
    ensures
        chunks_view(r@) == spec_create_embeds(fields_view(fields@)),
{
    let ghost fv = fields_view(fields@);
    let size = calculate_single_size(fields);
    if size <= MAX_EMBED_SIZE {
        let mut first = fields[0].duplicate();
        first.name.push(58);
        let mut msg: Vec<EmbedField> = Vec::new();
        let ghost firstv = first@;
        msg.push(first);
        if fields.len() == 2 {
            msg.push(fields[1].duplicate());
        }
        let mut r: Vec<Vec<EmbedField>> = Vec::new();
        r.push(msg);
        proof {
            assert(firstv =~= (FieldV { name: fv[0].name + seq![58u8], ..fv[0] }));
            assert(fields_view(r@[0]@) =~= fv.update(
                0,
                FieldV { name: fv[0].name + seq![58u8], ..fv[0] },
            ));
            assert(chunks_view(r@) =~= spec_fitting_message(fv));
        }
        r
    } else if fields.len() == 1 {
        let f = &fields[0];
        let cap: usize = MAX_EMBED_SIZE - f.name.len() - LABEL_ALLOWANCE;
        let l: usize = f.text.len();
        let total: usize = calculate_total_parts(fields, MAX_EMBED_SIZE);
        let k: usize = if total <= MAX_CHUNKS {
            total
        } else {
            MAX_CHUNKS
        };
        let ghost cap_i = cap as int;
        let ghost total_i = total as int;
        proof {
            lemma_total_single_bounds(l as int, cap_i);
            assert(fv.len() == 1);
            assert(fv.drop_last() =~= Seq::<FieldV>::empty());
            assert(spec_single_size(Seq::<FieldV>::empty()) == 1);
            assert(spec_single_size(fv) == spec_single_size(fv.drop_last()) + fv.last().name.len()
                + fv.last().text.len());
            assert(fv.last() == fv[0]);
            assert(spec_single_size(fv) == 1 + fv[0].name.len() + fv[0].text.len());
        }
        let mut r: Vec<Vec<EmbedField>> = Vec::new();
        let mut i: usize = 0;
        while i < k
            invariant
                i <= k,
                k <= MAX_CHUNKS,
                k <= total,
                cap >= 1,
                cap <= 1010,
                cap == cap_i,
                total == total_i,
                total_i == spec_total_single(l as int, cap_i),
                l == f.text@.len(),
                f == &fields[0],
                fields@.len() == 1,
                fv == fields_view(fields@),
                total_i * cap_i >= l,
                l > 0 ==> (total_i - 1) * cap_i < l,
                l > 0,
                r@.len() == i,
                forall|j: int|
                    0 <= j < i ==> #[trigger] fields_view(r@[j]@) == spec_single_chunk(
                        fv[0],
                        cap_i,
                        total_i,
                        j,
                    ),
            decreases k - i,
        {
            proof {
                assert(i * cap_i <= (total_i - 1) * cap_i) by (nonlinear_arith)
                    requires
                        0 <= i as int <= total_i - 1,
                        cap_i >= 1,
                ;
                assert(i * cap_i >= 0) by (nonlinear_arith)
                    requires
                        i as int >= 0,
                        cap_i >= 1,
                ;
                assert((i + 1) * cap_i == i * cap_i + cap_i) by (nonlinear_arith);
                assert(i * cap <= 9 * 1010) by (nonlinear_arith)
                    requires
                        0 <= i as int <= 9,
                        0 <= cap_i <= 1010,
                        cap == cap_i,
                ;
            }
            let lo: usize = i * cap;
            let hi: usize = if lo + cap <= l {
                lo + cap
            } else {
                l
            };
            let name = labeled_name(&f.name, (i as u64) + 1, total as u64);
            let text = bytes_slice(&f.text, lo, hi);
            let mut msg: Vec<EmbedField> = Vec::new();
            msg.push(EmbedField { name, text, inline: f.inline });
            r.push(msg);
            proof {
                assert(fields_view(r@[i as int]@) =~= spec_single_chunk(
                    fv[0],
                    cap_i,
                    total_i,
                    i as int,
                ));
            }
            i += 1;
        }
        proof {
            assert(chunks_view(r@) =~= spec_single_chunks(fv[0]));
        }
        r
    } else {
        let f1 = &fields[0];
        let f2 = &fields[1];
        let n1 = f1.name.len();
        let n2 = f2.name.len();
        let half: usize = MAX_EMBED_SIZE / 2 - n1 - n2 - LABEL_ALLOWANCE;
        let full: usize = MAX_EMBED_SIZE - n1 - n2 - LABEL_ALLOWANCE;
        let l1: usize = f1.text.len();
        let l2: usize = f2.text.len();
        let total: usize = calculate_total_parts(fields, MAX_EMBED_SIZE);
        let ghost half_i = half as int;
        let ghost full_i = full as int;
        let ghost total_i = total as int;
        let ghost f1v = fv[0];
        let ghost f2v = fv[1];
        let mut r: Vec<Vec<EmbedField>> = Vec::new();
        let mut p1: usize = 0;
        let mut p2: usize = 0;
        let mut idx: usize = 1;
        while idx <= MAX_CHUNKS && (p1 < l1 || p2 < l2)
            invariant
                1 <= idx <= MAX_CHUNKS + 1,
                idx == r@.len() + 1,
                p1 <= l1,
                p2 <= l2,
                l1 == f1.text@.len(),
                l2 == f2.text@.len(),
                f1 == &fields[0],
                f2 == &fields[1],
                fields@.len() == 2,
                fv == fields_view(fields@),
                f1v == fv[0],
                f2v == fv[1],
                half == half_i,
                full == full_i,
                full_i >= half_i >= 1,
                total == total_i,
                chunks_view(r@) + spec_two_chunks_from(
                    f1v,
                    f2v,
                    p1 as int,
                    p2 as int,
                    idx as int,
                    total_i,
                    half_i,
                    full_i,
                ) == spec_two_chunks_from(f1v, f2v, 0, 0, 1, total_i, half_i, full_i),
            decreases (MAX_CHUNKS + 1) - idx,
        {
            let ghost r_old = chunks_view(r@);
            let rem1: usize = l1 - p1;
            let rem2: usize = l2 - p2;
            let t1: usize = if rem1 == 0 {
                0
            } else if rem2 == 0 {
                if rem1 <= full {
                    rem1
                } else {
                    full
                }
            } else {
                if rem1 <= half {
                    rem1
                } else {
                    half
                }
            };
            let t2: usize = if rem2 == 0 {
                0
            } else if rem1 == 0 {
                if rem2 <= full {
                    rem2
                } else {
                    full
                }
            } else {
                if rem2 <= half {
                    rem2
                } else {
                    half
                }
            };
            proof {
                assert(t1 == take_amount(rem1 as int, rem2 as int, half_i, full_i));
                assert(t2 == take_amount(rem2 as int, rem1 as int, half_i, full_i));
            }
            let mut msg: Vec<EmbedField> = Vec::new();
            if t1 > 0 {
                let name = labeled_name(&f1.name, idx as u64, total as u64);
                let text = bytes_slice(&f1.text, p1, p1 + t1);
                msg.push(EmbedField { name, text, inline: f1.inline });
            }
            if t2 > 0 {
                let name = bytes_slice(&f2.name, 0, f2.name.len());
                let text = bytes_slice(&f2.text, p2, p2 + t2);
                proof {
                    assert(f2.name@.subrange(0, f2.name@.len() as int) =~= f2.name@);
                }
                msg.push(EmbedField { name, text, inline: f2.inline });
            }
            let ghost msgv = fields_view(msg@);
            r.push(msg);
            proof {
                let ghost part1: Seq<FieldV> = if t1 as int > 0 {
                    seq![
                        FieldV {
                            name: f1v.name + chunk_label(idx as int, total_i),
                            text: f1v.text.subrange(p1 as int, p1 as int + t1 as int),
                            inline: f1v.inline,
                        },
                    ]
                } else {
                    Seq::empty()
                };
                let ghost part2: Seq<FieldV> = if t2 as int > 0 {
                    seq![
                        FieldV {
                            name: f2v.name,
                            text: f2v.text.subrange(p2 as int, p2 as int + t2 as int),
                            inline: f2v.inline,
                        },
                    ]
                } else {
                    Seq::empty()
                };
                assert(msgv =~= part1 + part2);
                assert(chunks_view(r@) =~= r_old + seq![part1 + part2]);
                assert(spec_two_chunks_from(
                    f1v,
                    f2v,
                    p1 as int,
                    p2 as int,
                    idx as int,
                    total_i,
                    half_i,
                    full_i,
                ) == seq![part1 + part2] + spec_two_chunks_from(
                    f1v,
                    f2v,
                    p1 as int + t1 as int,
                    p2 as int + t2 as int,
                    idx as int + 1,
                    total_i,
                    half_i,
                    full_i,
                ));
                assert((r_old + seq![part1 + part2]) + spec_two_chunks_from(
                    f1v,
                    f2v,
                    p1 as int + t1 as int,
                    p2 as int + t2 as int,
                    idx as int + 1,
                    total_i,
                    half_i,
                    full_i,
                ) =~= r_old + (seq![part1 + part2] + spec_two_chunks_from(
                    f1v,
                    f2v,
                    p1 as int + t1 as int,
                    p2 as int + t2 as int,
                    idx as int + 1,
                    total_i,
                    half_i,
                    full_i,
                )));
            }
            p1 += t1;
            p2 += t2;
            idx += 1;
        }
        proof {
            assert(spec_two_chunks_from(
                f1v,
                f2v,
                p1 as int,
                p2 as int,
                idx as int,
                total_i,
                half_i,
                full_i,
            ) =~= Seq::<Seq<FieldV>>::empty());
            assert(chunks_view(r@) =~= chunks_view(r@) + Seq::<Seq<FieldV>>::empty());
            assert(chunks_view(r@) == spec_create_embeds(fv));
        }
        r
    }
}


/// Concatenation of the texts of one message's fields, in order.
pub open spec fn fields_texts(fs: Seq<FieldV>) -> Seq<u8>
    decreases fs.len(),
{
    if fs.len() == 0 {
        Seq::empty()
    } else {
        fs[0].text + fields_texts(fs.subrange(1, fs.len() as int))
    }
}

/// Concatenation of every field text of every message from index `i` on.
pub open spec fn texts_concat_from(chunks: Seq<Seq<FieldV>>, i: int) -> Seq<u8>
    decreases chunks.len() - i,
{
    if i < 0 || i >= chunks.len() {
        Seq::empty()
    } else {
        fields_texts(chunks[i]) + texts_concat_from(chunks, i + 1)
    }
}

/// Concatenation of every field text of every message, in order.
pub open spec fn texts_concat(chunks: Seq<Seq<FieldV>>) -> Seq<u8> {
    texts_concat_from(chunks, 0)
}

/// A one-field message's texts concatenate to that field's text.
proof fn lemma_fields_texts_single(fs: Seq<FieldV>)
    requires
        fs.len() == 1,
    ensures
        fields_texts(fs) == fs[0].text,
{
    assert(fs.subrange(1, 1) =~= Seq::<FieldV>::empty());
    assert(fields_texts(Seq::<FieldV>::empty()) == Seq::<u8>::empty());
    assert(fs[0].text + Seq::<u8>::empty() =~= fs[0].text);
}

/// The single-field chunks from index `i` on concatenate to the text
/// slice between the `i`-th cut and the last emitted cut.
proof fn lemma_single_concat(f: FieldV, cap: int, total: int, k: int, i: int)
    requires
        cap >= 1,
        total == spec_total_single(f.text.len() as int, cap),
        0 <= i <= k <= total,
        k <= MAX_CHUNKS,
        f.text.len() > 0,
    ensures
        texts_concat_from(
            Seq::new(k as nat, |j: int| spec_single_chunk(f, cap, total, j)),
            i,
        ) == f.text.subrange(
            min2(i * cap, f.text.len() as int),
            min2(k * cap, f.text.len() as int),
        ),
    decreases k - i,
{
    let l = f.text.len() as int;
    let chunks = Seq::new(k as nat, |j: int| spec_single_chunk(f, cap, total, j));
    lemma_total_single_bounds(l, cap);
    if i == k {
        assert(texts_concat_from(chunks, i) =~= Seq::<u8>::empty());
        assert(f.text.subrange(min2(i * cap, l), min2(k * cap, l)) =~= Seq::<u8>::empty());
    } else {
        lemma_single_concat(f, cap, total, k, i + 1);
        assert(i * cap <= (total - 1) * cap) by (nonlinear_arith)
            requires
                0 <= i <= total - 1,
                cap >= 1,
        ;
        assert((total - 1) * cap < l);
        assert(i * cap >= 0) by (nonlinear_arith)
            requires
                i >= 0,
                cap >= 1,
        ;
        assert((i + 1) * cap == i * cap + cap) by (nonlinear_arith);
        assert(min2(i * cap, l) == i * cap);
        let lo = i * cap;
        let mid = min2((i + 1) * cap, l);
        let hi = min2(k * cap, l);
        assert((i + 1) * cap <= k * cap) by (nonlinear_arith)
            requires
                i + 1 <= k,
                cap >= 1,
        ;
        assert(mid <= hi);
        assert(chunks[i] == spec_single_chunk(f, cap, total, i));
        lemma_fields_texts_single(chunks[i]);
        assert(fields_texts(chunks[i]) =~= f.text.subrange(lo, mid));
        assert(texts_concat_from(chunks, i) == fields_texts(chunks[i]) + texts_concat_from(
            chunks,
            i + 1,
        ));
        assert(f.text.subrange(lo, mid) + f.text.subrange(mid, hi) =~= f.text.subrange(lo, hi));
    }
}

/// Chunk round-trip: for a single-field payload, chunking and then
/// concatenating all chunk texts reproduces exactly the first
/// `min(L, 10 * cap)` bytes of the original text, where `L` is the
/// text's length and `cap` the effective per-chunk capacity.
pub proof fn lemma_chunk_round_trip(f: FieldV)
    requires
        f.name.len() + LABEL_ALLOWANCE < MAX_EMBED_SIZE,
    ensures
        texts_concat(spec_create_embeds(seq![f])) == f.text.take(
            min2(
                f.text.len() as int,
                (MAX_CHUNKS as int) * single_cap(f.name.len() as int),
            ),
        ),
{
    let s = seq![f];
    let l = f.text.len() as int;
    let cap = single_cap(f.name.len() as int);
    assert(s.drop_last() =~= Seq::<FieldV>::empty());
    assert(spec_single_size(Seq::<FieldV>::empty()) == 1);
    assert(s.last() == f);
    assert(spec_single_size(s) == 1 + f.name.len() + f.text.len());
    assert(10 * cap >= cap) by (nonlinear_arith)
        requires
            cap >= 1,
    ;
    if spec_single_size(s) <= MAX_EMBED_SIZE {
        let chunks = spec_fitting_message(s);
        assert(chunks.len() == 1);
        assert(chunks[0] =~= seq![FieldV { name: f.name + seq![58u8], ..f }]);
        lemma_fields_texts_single(chunks[0]);
        assert(fields_texts(chunks[0]) =~= f.text);
        assert(texts_concat_from(chunks, 1) == Seq::<u8>::empty());
        assert(f.text + Seq::<u8>::empty() =~= f.text);
        assert(texts_concat(chunks) =~= f.text);
        assert(l <= MAX_EMBED_SIZE - 1 - f.name.len());
        assert(10 * cap == 10 * (MAX_EMBED_SIZE - f.name.len() - LABEL_ALLOWANCE));
        assert(10 * cap >= l) by (nonlinear_arith)
            requires
                cap == 1010 - f.name.len() - 6,
                l <= 1010 - 1 - f.name.len(),
                f.name.len() + 6 < 1010,
                f.name.len() >= 0,
        ;
        assert(min2(l, 10 * cap) == l);
        assert(f.text.take(l) =~= f.text);
    } else {
        let total = spec_total_single(l, cap);
        let k = if total <= MAX_CHUNKS {
            total
        } else {
            MAX_CHUNKS as int
        };
        assert(l > 0);
        lemma_total_single_bounds(l, cap);
        lemma_single_concat(f, cap, total, k, 0);
        assert(0 * cap == 0) by (nonlinear_arith);
        assert(min2(0, l) == 0);
        let chunks = spec_single_chunks(s[0]);
        assert(s[0] == f);
        assert(texts_concat(chunks) == f.text.subrange(0, min2(k * cap, l)));
        if total <= MAX_CHUNKS {
            assert(k * cap >= l);
            assert(k * cap <= 10 * cap) by (nonlinear_arith)
                requires
                    k <= 10,
                    cap >= 1,
            ;
            assert(min2(k * cap, l) == l);
            assert(min2(l, 10 * cap) == l);
        } else {
            assert(k == 10);
            assert(10 * cap <= (total - 1) * cap) by (nonlinear_arith)
                requires
                    total >= 11,
                    cap >= 1,
            ;
            assert((total - 1) * cap < l);
            assert(min2(k * cap, l) == 10 * cap);
            assert(min2(l, 10 * cap) == 10 * cap);
        }
        assert(f.text.subrange(0, min2(l, 10 * cap)) =~= f.text.take(min2(l, 10 * cap)));
    }
}
} // verus!
