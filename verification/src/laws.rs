//! The laws of the decoder, proved from the model.
//!
//! Each public proof function here states a property of decoding that
//! holds for every buffer: determinism, the length of the witness vector,
//! order preservation, truncation safety, and tolerance of unknown
//! sections.

use crate::bigints::{biguint_of_le, parse_witness_spec};
use crate::cursor::{
    le_value, lemma_le_value_bound, lemma_pow256_small, pow256, spec_read_exact, spec_read_u32,
    spec_read_u64, spec_skip,
};
use crate::errors::DecodeError;
use crate::model::{
    build_container, chunks_of, decode_spec, encode_section, encode_sections, field_width_spec,
    le_bytes, locate_data, magic_tag, preamble_spec, scan_sections_model, scan_spec, wf_section,
    wf_sections, DataLocation, Section, DATA_SECTION_ID, FIELD_WIDTH_PAYLOAD_LEN,
    FIELD_WIDTH_SECTION_ID,
};
use num_bigint::BigUint;
use vstd::arithmetic::div_mod::lemma_fundamental_div_mod;
use vstd::prelude::*;

verus! {

/// What a successful scan guarantees about the data location it returns:
/// the payload lies wholly inside the buffer, past the section header it
/// was announced by, the element width is positive, and the payload is a
/// whole number of chunks.
pub proof fn lemma_scan_ok_bounds(
    buf: Seq<u8>,
    pos: int,
    n: nat,
    width: Option<u32>,
    loc: DataLocation,
)
    requires
        0 <= pos,
        scan_spec(buf, pos, n, width) == Ok::<DataLocation, DecodeError>(loc),
    ensures
        pos + 12 <= loc.start,
        loc.start + loc.length <= buf.len(),
        0 <= loc.length,
        loc.width > 0,
        loc.length % (loc.width as int) == 0,
    decreases n,
{
    if n == 0 {
    } else {
        match spec_read_u32(buf, pos) {
            Err(_) => {},
            Ok(id) => {
                match spec_read_u64(buf, pos + 4) {
                    Err(_) => {},
                    Ok(length) => {
                        let body = pos + 12;
                        if id == FIELD_WIDTH_SECTION_ID {
                            match field_width_spec(buf, body) {
                                Err(_) => {},
                                Ok(t) => {
                                    lemma_scan_ok_bounds(
                                        buf,
                                        body + FIELD_WIDTH_PAYLOAD_LEN,
                                        (n - 1) as nat,
                                        Some(t.0),
                                        loc,
                                    );
                                },
                            }
                        } else if id == DATA_SECTION_ID {
                            match width {
                                None => {},
                                Some(_w) => {
                                    match spec_read_exact(buf, body, length as int) {
                                        Err(_) => {},
                                        Ok(_) => {},
                                    }
                                },
                            }
                        } else {
                            match spec_skip(buf, body, length as int) {
                                Err(_) => {},
                                Ok(next) => {
                                    lemma_scan_ok_bounds(buf, next, (n - 1) as nat, width, loc);
                                },
                            }
                        }
                    },
                }
            },
        }
    }
}

/// The bounds of [`lemma_scan_ok_bounds`], lifted to a whole container.
pub proof fn lemma_locate_ok_bounds(buf: Seq<u8>, loc: DataLocation)
    requires
        locate_data(buf) == Ok::<DataLocation, DecodeError>(loc),
    ensures
        24 <= loc.start,
        loc.start + loc.length <= buf.len(),
        0 <= loc.length,
        loc.width > 0,
        loc.length % (loc.width as int) == 0,
{
    match preamble_spec(buf) {
        Err(_) => {},
        Ok((_version, count)) => {
            lemma_scan_ok_bounds(buf, 12, count as nat, None::<u32>, loc);
        },
    }
}

/// Determinism: decoding is a function of the buffer bytes alone.  Any
/// two results that satisfy the decoder's contract for the same buffer —
/// in particular, the results of repeated calls — are equal, element for
/// element, error for error.
pub proof fn lemma_decode_deterministic(
    buf: Seq<u8>,
    r1: Result<Seq<BigUint>, DecodeError>,
    r2: Result<Seq<BigUint>, DecodeError>,
)
    requires
        r1 == parse_witness_spec(buf),
        r2 == parse_witness_spec(buf),
    ensures
        r1 == r2,
{
}

/// Length: for a valid container the witness vector has exactly
/// `payload length / element width` elements.  The declared count in the
/// field-width header plays no part.
pub proof fn lemma_witness_length(buf: Seq<u8>, loc: DataLocation)
    requires
        locate_data(buf) == Ok::<DataLocation, DecodeError>(loc),
    ensures
        decode_spec(buf) matches Ok(chunks) && chunks.len() == loc.length / (loc.width as int),
        parse_witness_spec(buf) matches Ok(values) && values.len() == loc.length / (
        loc.width as int),
{
    lemma_locate_ok_bounds(buf, loc);
    let payload = buf.subrange(loc.start, loc.start + loc.length);
    assert(payload.len() == loc.length);
    assert(chunks_of(payload, loc.width as nat).len() == payload.len() / (loc.width as nat));
}

/// Scanning a truncated buffer: if the full scan finds the data payload
/// ending at `loc.start + loc.length`, cutting the buffer anywhere short
/// of that end makes the scan fail with `BufferTooShort`.  Every byte
/// before the cut reads as it did in the full buffer, so the scan takes
/// the same steps until a read crosses the cut — and one must, because
/// the payload does.
proof fn lemma_scan_truncated(
    buf: Seq<u8>,
    pos: int,
    n: nat,
    width: Option<u32>,
    loc: DataLocation,
    cut: int,
)
    requires
        0 <= pos <= cut,
        cut < loc.start + loc.length,
        cut <= buf.len(),
        scan_spec(buf, pos, n, width) == Ok::<DataLocation, DecodeError>(loc),
    ensures
        scan_spec(buf.take(cut), pos, n, width) matches Err(e) && e is BufferTooShort,
    decreases n,
{
    let t = buf.take(cut);
    lemma_scan_ok_bounds(buf, pos, n, width, loc);
    if n == 0 {
    } else {
        match spec_read_u32(buf, pos) {
            Err(_) => {},
            Ok(id) => {
                if pos + 4 > cut {
                    assert(spec_read_u32(t, pos) matches Err(e) && e is BufferTooShort);
                } else {
                    assert(t.subrange(pos, pos + 4) =~= buf.subrange(pos, pos + 4));
                    match spec_read_u64(buf, pos + 4) {
                        Err(_) => {},
                        Ok(length) => {
                            if pos + 12 > cut {
                                assert(spec_read_u64(t, pos + 4) matches Err(e)
                                    && e is BufferTooShort);
                            } else {
                                assert(t.subrange(pos + 4, pos + 12) =~= buf.subrange(
                                    pos + 4,
                                    pos + 12,
                                ));
                                let body = pos + 12;
                                if id == FIELD_WIDTH_SECTION_ID {
                                    match field_width_spec(buf, body) {
                                        Err(_) => {},
                                        Ok(tr) => {
                                            if body + 4 > cut {
                                                assert(spec_read_u32(t, body) matches Err(e)
                                                    && e is BufferTooShort);
                                            } else {
                                                assert(t.subrange(body, body + 4) =~= buf.subrange(
                                                    body,
                                                    body + 4,
                                                ));
                                                if body + 36 > cut {
                                                    assert(spec_read_exact(
                                                        t,
                                                        body + 4,
                                                        32,
                                                    ) matches Err(e) && e is BufferTooShort);
                                                } else {
                                                    assert(t.subrange(body + 4, body + 36)
                                                        =~= buf.subrange(body + 4, body + 36));
                                                    if body + 40 > cut {
                                                        assert(spec_read_u32(
                                                            t,
                                                            body + 36,
                                                        ) matches Err(e) && e is BufferTooShort);
                                                    } else {
                                                        assert(t.subrange(body + 36, body + 40)
                                                            =~= buf.subrange(body + 36, body + 40));
                                                        assert(field_width_spec(t, body)
                                                            == field_width_spec(buf, body));
                                                        lemma_scan_truncated(
                                                            buf,
                                                            body + FIELD_WIDTH_PAYLOAD_LEN,
                                                            (n - 1) as nat,
                                                            Some(tr.0),
                                                            loc,
                                                            cut,
                                                        );
                                                    }
                                                }
                                            }
                                        },
                                    }
                                } else if id == DATA_SECTION_ID {
                                    match width {
                                        None => {},
                                        Some(_w) => {
                                            assert(loc.start == body);
                                            assert(body + length > cut);
                                            assert(spec_read_exact(
                                                t,
                                                body,
                                                length as int,
                                            ) matches Err(e) && e is BufferTooShort);
                                        },
                                    }
                                } else {
                                    match spec_skip(buf, body, length as int) {
                                        Err(_) => {},
                                        Ok(next) => {
                                            if body + length > cut {
                                                assert(spec_skip(
                                                    t,
                                                    body,
                                                    length as int,
                                                ) matches Err(e) && e is BufferTooShort);
                                            } else {
                                                lemma_scan_truncated(
                                                    buf,
                                                    next,
                                                    (n - 1) as nat,
                                                    width,
                                                    loc,
                                                    cut,
                                                );
                                            }
                                        },
                                    }
                                }
                            }
                        },
                    }
                }
            },
        }
    }
}

/// Truncation safety: cut a valid container anywhere short of the end of
/// its data payload, and decoding the truncated buffer fails with
/// `BufferTooShort` — never a panic, never an out-of-bounds access, and
/// never a partial witness vector.
///
/// (A cut at or past the end of the data payload leaves every byte the
/// decoder reads in place, so such a cut decodes as the whole container
/// does; a defined result either way.)
pub proof fn lemma_truncation_safe(buf: Seq<u8>, loc: DataLocation, cut: int)
    requires
        locate_data(buf) == Ok::<DataLocation, DecodeError>(loc),
        0 <= cut < loc.start + loc.length,
    ensures
        parse_witness_spec(buf.take(cut)) matches Err(e) && e is BufferTooShort,
        decode_spec(buf.take(cut)) matches Err(e) && e is BufferTooShort,
{
    let t = buf.take(cut);
    lemma_locate_ok_bounds(buf, loc);
    match preamble_spec(buf) {
        Err(_) => {},
        Ok((_version, count)) => {
            if cut < 4 {
                assert(spec_read_exact(t, 0, 4) matches Err(e) && e is BufferTooShort);
            } else {
                assert(t.subrange(0, 4) =~= buf.subrange(0, 4));
                if cut < 8 {
                    assert(spec_read_u32(t, 4) matches Err(e) && e is BufferTooShort);
                } else {
                    assert(t.subrange(4, 8) =~= buf.subrange(4, 8));
                    if cut < 12 {
                        assert(spec_read_u32(t, 8) matches Err(e) && e is BufferTooShort);
                    } else {
                        assert(t.subrange(8, 12) =~= buf.subrange(8, 12));
                        lemma_scan_truncated(buf, 12, count as nat, None::<u32>, loc, cut);
                    }
                }
            }
        },
    }
}

/// Order preservation: chunk `i` of the data payload decodes to element
/// `i` of the witness vector, for every `i`.
pub proof fn lemma_order_preserved(buf: Seq<u8>, loc: DataLocation, i: int)
    requires
        locate_data(buf) == Ok::<DataLocation, DecodeError>(loc),
        0 <= i < loc.length / (loc.width as int),
    ensures
        parse_witness_spec(buf) matches Ok(values) && values[i] == biguint_of_le(
            buf.subrange(loc.start + i * (loc.width as int), loc.start + (i + 1) * (
            loc.width as int)),
        ),
{
    lemma_locate_ok_bounds(buf, loc);
    let w = loc.width as int;
    let q = loc.length / w;
    let payload = buf.subrange(loc.start, loc.start + loc.length);
    lemma_fundamental_div_mod(loc.length, w);
    assert((i + 1) * w <= q * w) by (nonlinear_arith)
        requires
            0 <= i < q,
            0 < w,
    ;
    assert(q * w == w * q) by (nonlinear_arith);
    assert((i + 1) * w == i * w + w) by (nonlinear_arith);
    assert(payload.subrange(i * w, i * w + w) =~= buf.subrange(
        loc.start + i * w,
        loc.start + i * w + w,
    ));
    assert(chunks_of(payload, loc.width as nat)[i] == payload.subrange(i * w, i * w + w));
}

/// `le_bytes` writes exactly `n` bytes.
proof fn lemma_le_bytes_len(v: nat, n: nat)
    ensures
        le_bytes(v, n).len() == n,
    decreases n,
{
    if n > 0 {
        lemma_le_bytes_len(v / 256, (n - 1) as nat);
    }
}

/// Reading back what `le_bytes` wrote gives the value again, as long as
/// the value fit the field.
proof fn lemma_le_bytes_value(v: nat, n: nat)
    requires
        v < pow256(n),
    ensures
        le_bytes(v, n).len() == n,
        le_value(le_bytes(v, n)) == v,
    decreases n,
{
    lemma_le_bytes_len(v, n);
    if n == 0 {
    } else {
        let s = le_bytes(v, n);
        let rest = le_bytes(v / 256, (n - 1) as nat);
        assert(v / 256 < pow256((n - 1) as nat)) by (nonlinear_arith)
            requires
                v < 256 * pow256((n - 1) as nat),
        ;
        lemma_le_bytes_value(v / 256, (n - 1) as nat);
        assert(s[0] == (v % 256) as u8);
        assert(s.subrange(1, s.len() as int) =~= rest);
        lemma_fundamental_div_mod(v as int, 256);
    }
}

/// Scanning the encoded bytes of a well-formed section list agrees with
/// [`scan_sections_model`] on the list itself: the scan stays
/// frame-aligned, reads back each id, length and payload as built, and
/// ends on the same result.
proof fn lemma_scan_encoded(buf: Seq<u8>, pos: int, ss: Seq<Section>, width: Option<u32>)
    requires
        0 <= pos,
        pos + encode_sections(ss).len() <= buf.len(),
        buf.subrange(pos, pos + encode_sections(ss).len()) == encode_sections(ss),
        wf_sections(ss),
    ensures
        match scan_sections_model(ss, width) {
            Err(e) => scan_spec(buf, pos, ss.len(), width) == Err::<DataLocation, DecodeError>(e),
            Ok((w, payload)) => scan_spec(buf, pos, ss.len(), width) matches Ok(loc) && loc.width
                == w && loc.length == payload.len() && buf.subrange(
                loc.start,
                loc.start + loc.length,
            ) == payload,
        },
    decreases ss.len(),
{
    if ss.len() == 0 {
    } else {
        let s = ss[0];
        let rest = ss.drop_first();
        let enc_all = encode_sections(ss);
        let enc_s = encode_section(s);
        let enc_rest = encode_sections(rest);
        let plen = s.payload.len() as int;
        lemma_le_bytes_len(s.id as nat, 4);
        lemma_le_bytes_len(s.payload.len(), 8);
        lemma_pow256_small();
        assert(wf_section(s));
        assert(enc_all == enc_s + enc_rest);
        assert(enc_s.len() == 12 + plen);
        assert(forall|j: int| 0 <= j < enc_all.len() ==> buf[pos + j] == #[trigger] enc_all[j])
            by {
            assert forall|j: int| 0 <= j < enc_all.len() implies buf[pos + j] == #[trigger] enc_all[j] by {
                assert(enc_all[j] == buf.subrange(pos, pos + enc_all.len())[j]);
            }
        }
        // the id field reads back
        assert forall|k: int| 0 <= k < 4 implies buf.subrange(pos, pos + 4)[k] == le_bytes(
            s.id as nat,
            4,
        )[k] by {
            assert(buf[pos + k] == enc_all[k]);
            assert(enc_all[k] == enc_s[k]);
            assert(enc_s[k] == le_bytes(s.id as nat, 4)[k]);
        }
        assert(buf.subrange(pos, pos + 4) =~= le_bytes(s.id as nat, 4));
        lemma_le_bytes_value(s.id as nat, 4);
        assert(spec_read_u32(buf, pos) == Ok::<u32, DecodeError>(s.id));
        // the length field reads back
        assert forall|k: int| 0 <= k < 8 implies buf.subrange(pos + 4, pos + 12)[k] == le_bytes(
            s.payload.len(),
            8,
        )[k] by {
            assert(buf[pos + 4 + k] == enc_all[4 + k]);
            assert(enc_all[4 + k] == enc_s[4 + k]);
            assert(enc_s[4 + k] == le_bytes(s.payload.len(), 8)[k]);
        }
        assert(buf.subrange(pos + 4, pos + 12) =~= le_bytes(s.payload.len(), 8));
        lemma_le_bytes_value(s.payload.len(), 8);
        assert(spec_read_u64(buf, pos + 4) == Ok::<u64, DecodeError>(s.payload.len() as u64));
        let body = pos + 12;
        // the payload sits right after the section header
        assert forall|k: int| 0 <= k < plen implies buf.subrange(body, body + plen)[k]
            == s.payload[k] by {
            assert(buf[body + k] == enc_all[12 + k]);
            assert(enc_all[12 + k] == enc_s[12 + k]);
            assert(enc_s[12 + k] == s.payload[k]);
        }
        assert(buf.subrange(body, body + plen) =~= s.payload);
        // and the rest of the list is encoded right after the payload
        assert forall|k: int| 0 <= k < enc_rest.len() implies buf.subrange(
            body + plen,
            body + plen + enc_rest.len(),
        )[k] == enc_rest[k] by {
            assert(buf[body + plen + k] == enc_all[12 + plen + k]);
            assert(enc_all[12 + plen + k] == enc_rest[k]);
        }
        assert(buf.subrange(body + plen, body + plen + enc_rest.len()) =~= enc_rest);
        if s.id == FIELD_WIDTH_SECTION_ID {
            assert(plen == 40);
            assert(buf.subrange(body, body + 4) =~= s.payload.subrange(0, 4));
            let w0 = le_value(s.payload.subrange(0, 4)) as u32;
            lemma_le_value_bound(s.payload.subrange(0, 4));
            assert(spec_read_u32(buf, body) == Ok::<u32, DecodeError>(w0));
            assert(field_width_spec(buf, body) matches Ok(t) && t.0 == w0);
            lemma_scan_encoded(buf, body + 40, rest, Some(w0));
        } else if s.id == DATA_SECTION_ID {
            match width {
                None => {},
                Some(w) => {
                    assert(spec_read_exact(buf, body, plen) == Ok::<Seq<u8>, DecodeError>(
                        buf.subrange(body, body + plen),
                    ));
                },
            }
        } else {
            assert(spec_skip(buf, body, plen) == Ok::<int, DecodeError>(body + plen));
            lemma_scan_encoded(buf, body + plen, rest, width);
        }
    }
}

/// The preamble of a built container validates, and hands back the
/// version and the section count; the sections start at offset 12.
proof fn lemma_build_preamble(version: u32, ss: Seq<Section>)
    requires
        ss.len() < 0x1_0000_0000,
    ensures
        preamble_spec(build_container(version, ss)) == Ok::<(u32, u32), DecodeError>(
            (version, ss.len() as u32),
        ),
        build_container(version, ss).len() == 12 + encode_sections(ss).len(),
        build_container(version, ss).subrange(12, 12 + encode_sections(ss).len() as int)
            == encode_sections(ss),
{
    let buf = build_container(version, ss);
    lemma_le_bytes_len(version as nat, 4);
    lemma_le_bytes_len(ss.len(), 4);
    lemma_pow256_small();
    assert(buf.len() == 12 + encode_sections(ss).len());
    assert(buf.subrange(0, 4) =~= magic_tag());
    assert(buf.subrange(4, 8) =~= le_bytes(version as nat, 4));
    assert(buf.subrange(8, 12) =~= le_bytes(ss.len(), 4));
    lemma_le_bytes_value(version as nat, 4);
    lemma_le_bytes_value(ss.len(), 4);
    assert(buf.subrange(12, 12 + encode_sections(ss).len() as int) =~= encode_sections(ss));
}

/// At the level of the section list, an unrecognized section anywhere
/// before the data section changes nothing: the scan skips it and goes
/// on with the same width.
proof fn lemma_model_skips_unknown(
    before: Seq<Section>,
    extra: Section,
    after: Seq<Section>,
    width: Option<u32>,
)
    requires
        extra.id != FIELD_WIDTH_SECTION_ID,
        extra.id != DATA_SECTION_ID,
        forall|i: int| 0 <= i < before.len() ==> (#[trigger] before[i]).id != DATA_SECTION_ID,
    ensures
        scan_sections_model(before + seq![extra] + after, width) == scan_sections_model(
            before + after,
            width,
        ),
    decreases before.len(),
{
    if before.len() == 0 {
        assert(before + seq![extra] + after =~= seq![extra] + after);
        assert(before + after =~= after);
        assert((seq![extra] + after)[0] == extra);
        assert((seq![extra] + after).drop_first() =~= after);
    } else {
        let s = before[0];
        let with_extra = before + seq![extra] + after;
        let without = before + after;
        assert(with_extra[0] == s);
        assert(without[0] == s);
        assert(with_extra.drop_first() =~= before.drop_first() + seq![extra] + after);
        assert(without.drop_first() =~= before.drop_first() + after);
        if s.id == FIELD_WIDTH_SECTION_ID {
            lemma_model_skips_unknown(
                before.drop_first(),
                extra,
                after,
                Some(le_value(s.payload.subrange(0, 4)) as u32),
            );
        } else {
            lemma_model_skips_unknown(before.drop_first(), extra, after, width);
        }
    }
}

/// Unknown-section tolerance: insert a section with an unrecognized id
/// and arbitrary payload anywhere before the data section of a
/// well-formed container, and the decode result does not change — same
/// witness vector, or the same error.
pub proof fn lemma_unknown_section_tolerated(
    version: u32,
    before: Seq<Section>,
    extra: Section,
    after: Seq<Section>,
)
    requires
        wf_sections(before),
        wf_section(extra),
        wf_sections(after),
        extra.id != FIELD_WIDTH_SECTION_ID,
        extra.id != DATA_SECTION_ID,
        forall|i: int| 0 <= i < before.len() ==> (#[trigger] before[i]).id != DATA_SECTION_ID,
        before.len() + after.len() + 1 < 0x1_0000_0000,
    ensures
        decode_spec(build_container(version, before + seq![extra] + after)) == decode_spec(
            build_container(version, before + after),
        ),
        parse_witness_spec(build_container(version, before + seq![extra] + after))
            == parse_witness_spec(build_container(version, before + after)),
{
    let ss1 = before + seq![extra] + after;
    let ss2 = before + after;
    let buf1 = build_container(version, ss1);
    let buf2 = build_container(version, ss2);
    assert(wf_sections(ss1)) by {
        assert forall|i: int| 0 <= i < ss1.len() implies wf_section(#[trigger] ss1[i]) by {
            if i < before.len() {
                assert(ss1[i] == before[i]);
            } else if i == before.len() {
                assert(ss1[i] == extra);
            } else {
                assert(ss1[i] == after[i - before.len() - 1]);
            }
        }
    }
    assert(wf_sections(ss2)) by {
        assert forall|i: int| 0 <= i < ss2.len() implies wf_section(#[trigger] ss2[i]) by {
            if i < before.len() {
                assert(ss2[i] == before[i]);
            } else {
                assert(ss2[i] == after[i - before.len()]);
            }
        }
    }
    lemma_build_preamble(version, ss1);
    lemma_build_preamble(version, ss2);
    lemma_scan_encoded(buf1, 12, ss1, None::<u32>);
    lemma_scan_encoded(buf2, 12, ss2, None::<u32>);
    lemma_model_skips_unknown(before, extra, after, None::<u32>);
}

} // verus!
