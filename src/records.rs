//! Telemetry records: slicing a blob by the field table, and packing the
//! records back into a blob.

use vstd::prelude::*;

use crate::oid::field::{
    field_bytes, lemma_field_bytes_of_parse, parse_field, writable, Width,
};
use crate::oid::registry::{device_path, device_values, device_width, Device};
use crate::value::AsnError;

verus! {

/// One record at the front of `s`, field by field: the values of each field
/// and how many bytes the record takes.
pub open spec fn parse_record(ws: Seq<Width>, s: Seq<u8>) -> Option<(Seq<Seq<int>>, nat)>
    decreases ws.len(),
{
    if ws.len() == 0 {
        Some((Seq::empty(), 0))
    } else {
        match parse_field(ws[0], s) {
            None => None,
            Some((v, k)) => if k > s.len() {
                None
            } else {
                match parse_record(ws.drop_first(), s.subrange(k as int, s.len() as int)) {
                    None => None,
                    Some((r, k2)) => Some((seq![v] + r, k + k2)),
                }
            },
        }
    }
}

/// The records that fill `s` exactly; none where the blob ends inside a
/// record or a record takes no bytes.
pub open spec fn parse_records(ws: Seq<Width>, s: Seq<u8>) -> Option<Seq<Seq<Seq<int>>>>
    decreases s.len(),
{
    if s.len() == 0 {
        Some(Seq::empty())
    } else {
        match parse_record(ws, s) {
            None => None,
            Some((r, k)) => if k == 0 || k > s.len() {
                None
            } else {
                match parse_records(ws, s.subrange(k as int, s.len() as int)) {
                    None => None,
                    Some(rest) => Some(seq![r] + rest),
                }
            },
        }
    }
}

/// The bytes of one record.
pub open spec fn record_bytes(ws: Seq<Width>, r: Seq<Seq<int>>) -> Seq<u8>
    decreases ws.len(),
{
    if ws.len() == 0 || r.len() == 0 {
        Seq::empty()
    } else {
        field_bytes(ws[0], r[0]) + record_bytes(ws.drop_first(), r.drop_first())
    }
}

/// The bytes of records one after another.
pub open spec fn records_bytes(ws: Seq<Width>, rs: Seq<Seq<Seq<int>>>) -> Seq<u8>
    decreases rs.len(),
{
    if rs.len() == 0 {
        Seq::empty()
    } else {
        record_bytes(ws, rs[0]) + records_bytes(ws, rs.drop_first())
    }
}

pub open spec fn all_ok(ws: Seq<Width>) -> bool {
    forall|i: int| 0 <= i < ws.len() ==> (#[trigger] ws[i]).ok()
}

proof fn lemma_record_bytes(ws: Seq<Width>, s: Seq<u8>)
    requires
        all_ok(ws),
        parse_record(ws, s) is Some,
    ensures
        ({
            let (r, k) = parse_record(ws, s)->Some_0;
            k <= s.len() && record_bytes(ws, r) == s.subrange(0, k as int)
        }),
    decreases ws.len(),
{
    if ws.len() == 0 {
        assert(s.subrange(0, 0) =~= Seq::<u8>::empty());
    } else {
        assert(ws[0].ok());
        lemma_field_bytes_of_parse(ws[0], s);
        let (v, k) = parse_field(ws[0], s)->Some_0;
        let t = s.subrange(k as int, s.len() as int);
        assert(all_ok(ws.drop_first())) by {
            assert forall|i: int| 0 <= i < ws.drop_first().len() implies (
            #[trigger] ws.drop_first()[i]).ok() by {
                assert(ws[i + 1].ok());
            }
        }
        lemma_record_bytes(ws.drop_first(), t);
        let (r2, k2) = parse_record(ws.drop_first(), t)->Some_0;
        let r = seq![v] + r2;
        assert(r.drop_first() =~= r2);
        assert(s.subrange(0, (k + k2) as int) =~= s.subrange(0, k as int) + t.subrange(
            0,
            k2 as int,
        ));
    }
}

/// Packing the records that a blob slices into gives the blob back.
pub proof fn law_pack_of_slice(ws: Seq<Width>, s: Seq<u8>)
    requires
        all_ok(ws),
        parse_records(ws, s) is Some,
    ensures
        records_bytes(ws, parse_records(ws, s)->Some_0) == s,
    decreases s.len(),
{
    if s.len() == 0 {
        assert(records_bytes(ws, Seq::empty()) =~= s);
    } else {
        lemma_record_bytes(ws, s);
        let (r, k) = parse_record(ws, s)->Some_0;
        let t = s.subrange(k as int, s.len() as int);
        law_pack_of_slice(ws, t);
        let rs = parse_records(ws, s)->Some_0;
        assert(rs.drop_first() =~= parse_records(ws, t)->Some_0);
        assert(s =~= s.subrange(0, k as int) + t);
    }
}

/// The widths of the fields of a table, in order.
pub open spec fn widths(kinds: Seq<Device>) -> Seq<Width> {
    kinds.map_values(|d: Device| device_width(d))
}

/// The values of a record's fields.
pub open spec fn record_view(r: Seq<Device>) -> Seq<Seq<int>> {
    r.map_values(|d: Device| device_values(d))
}

/// The values of records' fields.
pub open spec fn records_view(rs: Seq<Vec<Device>>) -> Seq<Seq<Seq<int>>> {
    rs.map_values(|r: Vec<Device>| record_view(r@))
}

/// Each record holds the table's fields in the table's order.
pub open spec fn follows_table(rs: Seq<Vec<Device>>, kinds: Seq<Device>) -> bool {
    forall|i: int|
        0 <= i < rs.len() ==> {
            &&& (#[trigger] rs[i])@.len() == kinds.len()
            &&& forall|j: int|
                0 <= j < kinds.len() ==> device_path(#[trigger] rs[i]@[j]) == device_path(kinds[j])
                    && device_width(rs[i]@[j]) == device_width(kinds[j])
        }
}

/// Reads one record at `blob[pos..]`: a fresh copy of each field of the
/// table, filled from the blob in table order.
#[verifier::rlimit(40)]
fn slice_record(kinds: &Vec<Device>, blob: &[u8], pos: usize) -> (r: Result<(Vec<Device>, usize), AsnError>)
    requires
        pos <= blob@.len(),
        all_ok(widths(kinds@)),
    ensures
        match r {
            Ok((rec, np)) => {
                &&& pos <= np <= blob@.len()
                &&& parse_record(widths(kinds@), blob@.subrange(pos as int, blob@.len() as int))
                    == Some((record_view(rec@), (np - pos) as nat))
                &&& follows_table(seq![rec], kinds@)
                &&& packable(seq![rec])
            },
            Err(e) => e == AsnError::TruncatedRecord && parse_record(
                widths(kinds@),
                blob@.subrange(pos as int, blob@.len() as int),
            ) is None,
        },
{
    let ghost ws = widths(kinds@);
    let mut rec: Vec<Device> = Vec::new();
    let mut p: usize = pos;
    let mut j: usize = 0;
    proof {
        assert(ws.subrange(0, ws.len() as int) =~= ws);
        match parse_record(ws, blob@.subrange(pos as int, blob@.len() as int)) {
            Some((r, k)) => {
                assert(record_view(rec@) + r =~= r);
            },
            None => {},
        }
    }
    while j < kinds.len()
        invariant
            j <= kinds@.len(),
            pos <= p <= blob@.len(),
            ws == widths(kinds@),
            rec@.len() == j,
            all_ok(ws),
            forall|x: int|
                0 <= x < j ==> writable(
                    device_width(#[trigger] rec@[x]),
                    device_values(rec@[x]),
                ),
            forall|x: int|
                0 <= x < j ==> device_path(#[trigger] rec@[x]) == device_path(kinds@[x])
                    && device_width(rec@[x]) == device_width(kinds@[x]),
            parse_record(ws, blob@.subrange(pos as int, blob@.len() as int)) == match parse_record(
                ws.subrange(j as int, ws.len() as int),
                blob@.subrange(p as int, blob@.len() as int),
            ) {
                Some((r, k)) => Some((record_view(rec@) + r, ((p - pos) + k) as nat)),
                None => None,
            },
        decreases kinds@.len() - j,
    {
        let mut d = kinds[j].fresh();
        let ghost rest = ws.subrange(j as int, ws.len() as int);
        let ghost t = blob@.subrange(p as int, blob@.len() as int);
        assert(rest[0] == device_width(kinds@[j as int]));
        match d.get_value(blob, p) {
            Ok(np) => {
                proof {
                    assert(ws[j as int] == device_width(kinds@[j as int]));
                    assert(ws[j as int].ok());
                    lemma_field_bytes_of_parse(device_width(kinds@[j as int]), t);
                    assert(rest.drop_first() =~= ws.subrange(j + 1, ws.len() as int));
                    assert(t.subrange((np - p) as int, t.len() as int) =~= blob@.subrange(
                        np as int,
                        blob@.len() as int,
                    ));
                    assert(record_view(rec@.push(d)) =~= record_view(rec@).push(
                        device_values(d),
                    ));
                    match parse_record(
                        ws.subrange(j + 1, ws.len() as int),
                        blob@.subrange(np as int, blob@.len() as int),
                    ) {
                        Some((r, k)) => {
                            assert(record_view(rec@).push(device_values(d)) + r
                                =~= record_view(rec@) + (seq![device_values(d)] + r));
                        },
                        None => {},
                    }
                }
                rec.push(d);
                p = np;
            },
            Err(e) => {
                return Err(e);
            },
        }
        j += 1;
    }
    proof {
        assert(ws.subrange(j as int, ws.len() as int) =~= Seq::<Width>::empty());
        assert(record_view(rec@) + Seq::<Seq<int>>::empty() =~= record_view(rec@));
        assert(follows_table(seq![rec], kinds@)) by {
            assert(seq![rec][0] == rec);
        }
        assert(packable(seq![rec])) by {
            assert(seq![rec][0] == rec);
        }
    }
    Ok((rec, p))
}

/// Slices a blob into records by the field table: each record holds one
/// value per field, in table order, until the blob is used up.
#[verifier::rlimit(40)]
pub fn slice_records(kinds: &Vec<Device>, blob: &[u8]) -> (r: Result<Vec<Vec<Device>>, AsnError>)
    requires
        all_ok(widths(kinds@)),
    ensures
        match r {
            Ok(rs) => parse_records(widths(kinds@), blob@) == Some(records_view(rs@))
                && follows_table(rs@, kinds@) && packable(rs@),
            Err(e) => e == AsnError::TruncatedRecord && parse_records(widths(kinds@), blob@) is None,
        },
{
    let ghost ws = widths(kinds@);
    let mut out: Vec<Vec<Device>> = Vec::new();
    let mut pos: usize = 0;
    assert(blob@.subrange(0, blob@.len() as int) =~= blob@);
    while pos < blob.len()
        invariant
            pos <= blob@.len(),
            ws == widths(kinds@),
            all_ok(ws),
            follows_table(out@, kinds@),
            packable(out@),
            parse_records(ws, blob@) == match parse_records(
                ws,
                blob@.subrange(pos as int, blob@.len() as int),
            ) {
                Some(rest) => Some(records_view(out@) + rest),
                None => None,
            },
        decreases blob@.len() - pos,
    {
        let ghost t = blob@.subrange(pos as int, blob@.len() as int);
        match slice_record(kinds, blob, pos) {
            Ok((rec, np)) => {
                if np == pos {
                    return Err(AsnError::TruncatedRecord);
                }
                proof {
                    assert(t.subrange((np - pos) as int, t.len() as int) =~= blob@.subrange(
                        np as int,
                        blob@.len() as int,
                    ));
                    assert(records_view(out@.push(rec)) =~= records_view(out@).push(
                        record_view(rec@),
                    ));
                    match parse_records(ws, blob@.subrange(np as int, blob@.len() as int)) {
                        Some(rest) => {
                            assert(records_view(out@).push(record_view(rec@)) + rest
                                =~= records_view(out@) + (seq![record_view(rec@)] + rest));
                        },
                        None => {},
                    }
                    assert(packable(out@.push(rec))) by {
                        assert(seq![rec][0] == rec);
                        assert forall|i: int, j: int|
                            0 <= i < out@.push(rec).len() && 0 <= j < out@.push(rec)[i]@.len()
                                implies writable(
                            device_width(#[trigger] out@.push(rec)[i]@[j]),
                            device_values(out@.push(rec)[i]@[j]),
                        ) by {
                            if i == out@.len() {
                                assert(out@.push(rec)[i] == seq![rec][0]);
                            } else {
                                assert(out@.push(rec)[i] == out@[i]);
                            }
                        }
                    }
                    assert(follows_table(out@.push(rec), kinds@)) by {
                        assert forall|i: int| 0 <= i < out@.push(rec).len() implies {
                            &&& (#[trigger] out@.push(rec)[i])@.len() == kinds@.len()
                            &&& forall|j: int|
                                0 <= j < kinds@.len() ==> device_path(
                                    #[trigger] out@.push(rec)[i]@[j],
                                ) == device_path(kinds@[j]) && device_width(out@.push(rec)[i]@[j])
                                    == device_width(kinds@[j])
                        } by {
                            if i == out@.len() {
                                assert(seq![rec][0] == rec);
                            }
                        }
                    }
                }
                out.push(rec);
                pos = np;
            },
            Err(e) => {
                return Err(e);
            },
        }
    }
    proof {
        assert(records_view(out@) + Seq::<Seq<Seq<int>>>::empty() =~= records_view(out@));
    }
    Ok(out)
}

/// The bytes of a record's fields, each by its own layout.
pub open spec fn rec_bytes(r: Seq<Device>) -> Seq<u8>
    decreases r.len(),
{
    if r.len() == 0 {
        Seq::empty()
    } else {
        field_bytes(device_width(r[0]), device_values(r[0])) + rec_bytes(r.drop_first())
    }
}

/// The bytes of records one after another.
pub open spec fn pack_spec(rs: Seq<Vec<Device>>) -> Seq<u8>
    decreases rs.len(),
{
    if rs.len() == 0 {
        Seq::empty()
    } else {
        rec_bytes(rs[0]@) + pack_spec(rs.drop_first())
    }
}

/// Every field of every record can be written.
pub open spec fn packable(rs: Seq<Vec<Device>>) -> bool {
    forall|i: int, j: int|
        0 <= i < rs.len() && 0 <= j < rs[i]@.len() ==> writable(
            device_width(#[trigger] rs[i]@[j]),
            device_values(rs[i]@[j]),
        )
}

proof fn lemma_rec_bytes_push(r: Seq<Device>, d: Device)
    ensures
        rec_bytes(r.push(d)) == rec_bytes(r) + field_bytes(device_width(d), device_values(d)),
    decreases r.len(),
{
    if r.len() == 0 {
        assert(r.push(d).drop_first() =~= Seq::<Device>::empty());
        assert(r.push(d)[0] == d);
        assert(rec_bytes(Seq::<Device>::empty()) == Seq::<u8>::empty());
        assert(rec_bytes(r) == Seq::<u8>::empty());
        assert(rec_bytes(r.push(d)) =~= field_bytes(device_width(d), device_values(d)));
    } else {
        assert(r.push(d).drop_first() =~= r.drop_first().push(d));
        lemma_rec_bytes_push(r.drop_first(), d);
        assert(rec_bytes(r.push(d)) =~= rec_bytes(r) + field_bytes(
            device_width(d),
            device_values(d),
        ));
    }
}

proof fn lemma_pack_push(rs: Seq<Vec<Device>>, r: Vec<Device>)
    ensures
        pack_spec(rs.push(r)) == pack_spec(rs) + rec_bytes(r@),
    decreases rs.len(),
{
    if rs.len() == 0 {
        assert(rs.push(r).drop_first() =~= Seq::<Vec<Device>>::empty());
        assert(rs.push(r)[0] == r);
        assert(pack_spec(Seq::<Vec<Device>>::empty()) == Seq::<u8>::empty());
        assert(pack_spec(rs) == Seq::<u8>::empty());
        assert(pack_spec(rs.push(r)) =~= rec_bytes(r@));
    } else {
        assert(rs.push(r).drop_first() =~= rs.drop_first().push(r));
        lemma_pack_push(rs.drop_first(), r);
        assert(pack_spec(rs.push(r)) =~= pack_spec(rs) + rec_bytes(r@));
    }
}

/// Writes records back into a blob: each field's bytes, in record order.
pub fn pack_records(rs: &Vec<Vec<Device>>) -> (r: Vec<u8>)
    requires
        packable(rs@),
    ensures
        r@ == pack_spec(rs@),
{
    let mut out: Vec<u8> = Vec::new();
    let mut i: usize = 0;
    while i < rs.len()
        invariant
            i <= rs@.len(),
            packable(rs@),
            out@ == pack_spec(rs@.subrange(0, i as int)),
        decreases rs@.len() - i,
    {
        let rec = &rs[i];
        let ghost before = out@;
        let mut j: usize = 0;
        while j < rec.len()
            invariant
                j <= rec@.len(),
                i < rs@.len(),
                *rec == rs@[i as int],
                packable(rs@),
                out@ == before + rec_bytes(rec@.subrange(0, j as int)),
            decreases rec@.len() - j,
        {
            let b = rec[j].to_bytes();
            crate::value::append_bytes(&mut out, &b);
            proof {
                lemma_rec_bytes_push(rec@.subrange(0, j as int), rec@[j as int]);
                assert(rec@.subrange(0, j + 1) =~= rec@.subrange(0, j as int).push(rec@[j as int]));
            }
            j += 1;
        }
        proof {
            assert(rec@.subrange(0, rec@.len() as int) =~= rec@);
            lemma_pack_push(rs@.subrange(0, i as int), *rec);
            assert(rs@.subrange(0, i + 1) =~= rs@.subrange(0, i as int).push(*rec));
        }
        i += 1;
    }
    assert(rs@.subrange(0, rs@.len() as int) =~= rs@);
    out
}

proof fn lemma_rec_bytes_table(r: Seq<Device>, kinds: Seq<Device>)
    requires
        r.len() == kinds.len(),
        forall|j: int| 0 <= j < kinds.len() ==> device_width(#[trigger] r[j]) == device_width(kinds[j]),
    ensures
        rec_bytes(r) == record_bytes(widths(kinds), record_view(r)),
    decreases r.len(),
{
    if r.len() > 0 {
        assert forall|j: int| 0 <= j < kinds.drop_first().len() implies device_width(
            #[trigger] r.drop_first()[j],
        ) == device_width(kinds.drop_first()[j]) by {
            assert(device_width(r[j + 1]) == device_width(kinds[j + 1]));
        }
        lemma_rec_bytes_table(r.drop_first(), kinds.drop_first());
        assert(widths(kinds).drop_first() =~= widths(kinds.drop_first()));
        assert(record_view(r).drop_first() =~= record_view(r.drop_first()));
    } else {
        assert(rec_bytes(r) =~= record_bytes(widths(kinds), record_view(r)));
    }
}

proof fn lemma_pack_table(rs: Seq<Vec<Device>>, kinds: Seq<Device>)
    requires
        follows_table(rs, kinds),
    ensures
        pack_spec(rs) == records_bytes(widths(kinds), records_view(rs)),
    decreases rs.len(),
{
    if rs.len() > 0 {
        let r = rs[0]@;
        assert forall|j: int| 0 <= j < kinds.len() implies device_width(#[trigger] r[j])
            == device_width(kinds[j]) by {
            assert(device_width(rs[0]@[j]) == device_width(kinds[j]));
        }
        lemma_rec_bytes_table(r, kinds);
        assert(follows_table(rs.drop_first(), kinds)) by {
            assert forall|i: int| 0 <= i < rs.drop_first().len() implies {
                &&& (#[trigger] rs.drop_first()[i])@.len() == kinds.len()
                &&& forall|j: int|
                    0 <= j < kinds.len() ==> device_path(#[trigger] rs.drop_first()[i]@[j])
                        == device_path(kinds[j]) && device_width(rs.drop_first()[i]@[j])
                        == device_width(kinds[j])
            } by {
                assert(rs.drop_first()[i] == rs[i + 1]);
            }
        }
        lemma_pack_table(rs.drop_first(), kinds);
        assert(records_view(rs).drop_first() =~= records_view(rs.drop_first()));
    } else {
        assert(records_view(rs) =~= Seq::<Seq<Seq<int>>>::empty());
    }
}

/// Packing the records that slicing a blob gives writes the blob back.
pub proof fn law_pack_records_of_slice(kinds: Seq<Device>, rs: Seq<Vec<Device>>, blob: Seq<u8>)
    requires
        all_ok(widths(kinds)),
        parse_records(widths(kinds), blob) == Some(records_view(rs)),
        follows_table(rs, kinds),
    ensures
        pack_spec(rs) == blob,
{
    law_pack_of_slice(widths(kinds), blob);
    lemma_pack_table(rs, kinds);
}

} // verus!
