//! Reading an image back, and the proof that it gives back every object.

use vstd::prelude::*;
use vstd::utf8::*;
use crate::manifest::{
    ABSENT,
    HEADER_LEN,
    IMAGE_MAGIC,
    IMAGE_VERSION,
    ManifestObjectType,
    ObjectModel,
    RECORD_LEN,
    blob,
    encodable,
    image,
    kind_tag,
    le32,
    lemma_directory_in_order,
    offset_of,
    opt_properties_bytes,
    properties_bytes,
    property_bytes,
    record_at,
    region,
};

verus! {

/// The little-endian `u32` at position `i`.
pub open spec fn read32(b: Seq<u8>, i: int) -> u32 {
    (b[i] as u32) | ((b[i + 1] as u32) << 8u32) | ((b[i + 2] as u32) << 16u32) | ((b[i + 3] as u32)
        << 24u32)
}

pub open spec fn tag_kind(t: u32) -> Option<ManifestObjectType> {
    if t == 0 {
        Some(ManifestObjectType::BootMsg)
    } else if t == 1 {
        Some(ManifestObjectType::SystemService)
    } else if t == 2 {
        Some(ManifestObjectType::GuestOS)
    } else {
        None
    }
}

/// The `len` bytes at `off` in the data region, which starts at `base`.
pub open spec fn field(b: Seq<u8>, base: int, off: u32, len: u32) -> Option<Seq<u8>> {
    if base + off + len <= b.len() {
        Some(b.subrange(base + off, base + off + len))
    } else {
        None
    }
}

pub open spec fn decode_text(b: Seq<u8>) -> Option<Seq<char>> {
    if valid_utf8(b) {
        Some(decode_utf8(b))
    } else {
        None
    }
}

/// A list of length-prefixed texts.
pub open spec fn parse_properties(b: Seq<u8>) -> Option<Seq<Seq<char>>>
    decreases b.len(),
{
    if b.len() == 0 {
        Some(Seq::empty())
    } else if b.len() < 4 {
        None
    } else {
        let l = read32(b, 0) as int;
        if 4 + l > b.len() {
            None
        } else {
            match (decode_text(b.subrange(4, 4 + l)), parse_properties(b.subrange(4 + l, b.len() as int))) {
                (Some(p), Some(rest)) => Some(seq![p] + rest),
                _ => None,
            }
        }
    }
}

pub open spec fn decode_properties(b: Seq<u8>, base: int, r: int) -> Option<Option<Seq<Seq<char>>>> {
    if read32(b, r + 20) == ABSENT {
        Some(None)
    } else {
        match field(b, base, read32(b, r + 20), read32(b, r + 24)) {
            Some(x) => match parse_properties(x) {
                Some(ps) => Some(Some(ps)),
                None => None,
            },
            None => None,
        }
    }
}

/// The `i`th object of an image of `n` objects.
#[verifier::opaque]
pub open spec fn decode_record(b: Seq<u8>, i: int, n: int) -> Option<ObjectModel> {
    let r = HEADER_LEN + RECORD_LEN * i;
    let base = HEADER_LEN + RECORD_LEN * n;
    match (
        tag_kind(read32(b, r)),
        field(b, base, read32(b, r + 4), read32(b, r + 8)),
        field(b, base, read32(b, r + 12), read32(b, r + 16)),
        decode_properties(b, base, r),
        field(b, base, read32(b, r + 28), read32(b, r + 32)),
    ) {
        (Some(kind), Some(nb), Some(db), Some(properties), Some(data)) => match (
            decode_text(nb),
            decode_text(db),
        ) {
            (Some(name), Some(description)) => Some(
                ObjectModel { kind, name, description, data, properties },
            ),
            _ => None,
        },
        _ => None,
    }
}

/// The first `k` objects of an image of `n` objects.
pub open spec fn decode_objects(b: Seq<u8>, n: int, k: int) -> Option<Seq<ObjectModel>>
    decreases k,
{
    if k <= 0 {
        Some(Seq::empty())
    } else {
        match (decode_objects(b, n, k - 1), decode_record(b, k - 1, n)) {
            (Some(s), Some(o)) => Some(s.push(o)),
            _ => None,
        }
    }
}

/// The objects of an image, read by walking its header and directory.
pub open spec fn decode_image(b: Seq<u8>) -> Option<Seq<ObjectModel>> {
    if b.len() < HEADER_LEN || read32(b, 0) != IMAGE_MAGIC || read32(b, 4) != IMAGE_VERSION {
        None
    } else {
        let n = read32(b, 8) as int;
        if b.len() < HEADER_LEN + RECORD_LEN * n {
            None
        } else {
            decode_objects(b, n, n)
        }
    }
}

proof fn lemma_read32(b: Seq<u8>, i: int, x: u32)
    requires
        0 <= i,
        i + 4 <= b.len(),
        b.subrange(i, i + 4) == le32(x),
    ensures
        read32(b, i) == x,
{
    assert(b[i] == b.subrange(i, i + 4)[0]);
    assert(b[i + 1] == b.subrange(i, i + 4)[1]);
    assert(b[i + 2] == b.subrange(i, i + 4)[2]);
    assert(b[i + 3] == b.subrange(i, i + 4)[3]);
    assert(((((x & 0xff) as u8) as u32) | (((((x >> 8u32) & 0xff) as u8) as u32) << 8u32) | (((((x
        >> 16u32) & 0xff) as u8) as u32) << 16u32) | (((((x >> 24u32) & 0xff) as u8) as u32)
        << 24u32)) == x) by (bit_vector);
}

/// Each object's bytes lie in the data region at its offset.
proof fn lemma_region_piece(m: Seq<ObjectModel>, i: int)
    requires
        0 <= i < m.len(),
    ensures
        offset_of(m, i) + blob(m[i]).len() <= region(m).len(),
        region(m).subrange(offset_of(m, i), offset_of(m, i) + blob(m[i]).len()) == blob(m[i]),
    decreases m.len(),
{
    let p = m.drop_last();
    let off = offset_of(m, i);
    if i == m.len() - 1 {
        assert(m.take(i) =~= p);
        assert(region(m).subrange(off, off + blob(m[i]).len()) =~= blob(m[i]));
    } else {
        lemma_region_piece(p, i);
        assert(p.take(i) =~= m.take(i));
        assert(region(m).subrange(off, off + blob(m[i]).len()) =~= region(p).subrange(
            off,
            off + blob(m[i]).len(),
        ));
    }
}

/// The properties' bytes, read from the front.
proof fn lemma_properties_front(ps: Seq<Seq<char>>)
    requires
        ps.len() > 0,
    ensures
        properties_bytes(ps) == property_bytes(ps[0]) + properties_bytes(ps.drop_first()),
    decreases ps.len(),
{
    if ps.len() == 1 {
        assert(ps.drop_last() =~= Seq::<Seq<char>>::empty());
        assert(ps.drop_first() =~= Seq::<Seq<char>>::empty());
        assert(properties_bytes(ps.drop_last()) =~= Seq::<u8>::empty());
        assert(properties_bytes(ps.drop_first()) =~= Seq::<u8>::empty());
        assert(properties_bytes(ps) =~= property_bytes(ps[0]));
    } else {
        lemma_properties_front(ps.drop_last());
        assert(ps.drop_last().drop_first() =~= ps.drop_first().drop_last());
        assert(ps.drop_first().last() == ps.last());
        assert(properties_bytes(ps) =~= property_bytes(ps[0]) + properties_bytes(ps.drop_first()));
    }
}

proof fn lemma_decode_text(s: Seq<char>)
    ensures
        decode_text(encode_utf8(s)) == Some(s),
{
    encode_utf8_valid_utf8(s);
    encode_utf8_decode_utf8(s);
}

/// The list of properties reads back as written.
proof fn lemma_parse_properties(ps: Seq<Seq<char>>)
    requires
        properties_bytes(ps).len() < ABSENT,
    ensures
        parse_properties(properties_bytes(ps)) == Some(ps),
    decreases ps.len(),
{
    if ps.len() == 0 {
        assert(properties_bytes(ps) =~= Seq::<u8>::empty());
        assert(ps =~= Seq::<Seq<char>>::empty());
    } else {
        lemma_properties_front(ps);
        let b = properties_bytes(ps);
        let e = encode_utf8(ps[0]);
        let rest = properties_bytes(ps.drop_first());
        let l = e.len() as int;
        assert(b.subrange(0, 4) =~= le32(l as u32));
        lemma_read32(b, 0, l as u32);
        assert(b.subrange(4, 4 + l) =~= e);
        assert(b.subrange(4 + l, b.len() as int) =~= rest);
        lemma_decode_text(ps[0]);
        lemma_parse_properties(ps.drop_first());
        assert(seq![ps[0]] + ps.drop_first() =~= ps);
    }
}

/// A `u32` of an object's record reads back from the image.
proof fn lemma_image_field(m: Seq<ObjectModel>, i: int, j: int, v: u32)
    requires
        encodable(m),
        0 <= i < m.len(),
        0 <= j < 9,
        record_at(m[i], offset_of(m, i)).subrange(4 * j, 4 * j + 4) == le32(v),
    ensures
        read32(image(m), HEADER_LEN + RECORD_LEN * i + 4 * j) == v,
{
    lemma_directory_in_order(m);
    let img = image(m);
    let r = HEADER_LEN + RECORD_LEN * i;
    let rec = record_at(m[i], offset_of(m, i));
    assert(img.subrange(r, r + RECORD_LEN) == rec);
    assert(r + RECORD_LEN <= img.len()) by (nonlinear_arith)
        requires
            r == HEADER_LEN + RECORD_LEN * i,
            i < m.len(),
            img.len() == HEADER_LEN + RECORD_LEN * m.len() + region(m).len(),
    ;
    assert(img.subrange(r + 4 * j, r + 4 * j + 4) =~= rec.subrange(4 * j, 4 * j + 4));
    lemma_read32(img, r + 4 * j, v);
}

/// A piece of an object's bytes reads back from the data region.
proof fn lemma_blob_field(m: Seq<ObjectModel>, i: int, start: int, len: int, expected: Seq<u8>)
    requires
        encodable(m),
        0 <= i < m.len(),
        0 <= start,
        0 <= len,
        start + len <= blob(m[i]).len(),
        blob(m[i]).subrange(start, start + len) == expected,
    ensures
        field(
            image(m),
            HEADER_LEN + RECORD_LEN * m.len(),
            (offset_of(m, i) + start) as u32,
            len as u32,
        ) == Some(expected),
{
    lemma_directory_in_order(m);
    lemma_region_piece(m, i);
    let img = image(m);
    let base = HEADER_LEN + RECORD_LEN * m.len();
    let off = offset_of(m, i);
    let rg = region(m);
    assert(img.subrange(base, img.len() as int) == rg);
    assert(img.subrange(base + off + start, base + off + start + len) =~= rg.subrange(
        off + start,
        off + start + len,
    ));
    assert(rg.subrange(off + start, off + start + len) =~= blob(m[i]).subrange(
        start,
        start + len,
    ));
}

/// Where each field lies in a record.
#[verifier::rlimit(100)]
proof fn lemma_record_layout(o: ObjectModel, off: int)
    ensures
        ({
            let rec = record_at(o, off);
            let nl = encode_utf8(o.name).len() as int;
            let dl = encode_utf8(o.description).len() as int;
            let pl = opt_properties_bytes(o.properties).len() as int;
            let po: u32 = if o.properties is Some {
                (off + nl + dl) as u32
            } else {
                ABSENT
            };
            &&& rec.subrange(0, 4) == le32(kind_tag(o.kind))
            &&& rec.subrange(4, 8) == le32(off as u32)
            &&& rec.subrange(8, 12) == le32(nl as u32)
            &&& rec.subrange(12, 16) == le32((off + nl) as u32)
            &&& rec.subrange(16, 20) == le32(dl as u32)
            &&& rec.subrange(20, 24) == le32(po)
            &&& rec.subrange(24, 28) == le32(pl as u32)
            &&& rec.subrange(28, 32) == le32((off + nl + dl + pl) as u32)
            &&& rec.subrange(32, 36) == le32(o.data.len() as u32)
        }),
{
    let rec = record_at(o, off);
    let nl = encode_utf8(o.name).len() as int;
    let dl = encode_utf8(o.description).len() as int;
    let pl = opt_properties_bytes(o.properties).len() as int;
    let po: u32 = if o.properties is Some {
        (off + nl + dl) as u32
    } else {
        ABSENT
    };
    assert(rec.subrange(0, 4) =~= le32(kind_tag(o.kind)));
    assert(rec.subrange(4, 8) =~= le32(off as u32));
    assert(rec.subrange(8, 12) =~= le32(nl as u32));
    assert(rec.subrange(12, 16) =~= le32((off + nl) as u32));
    assert(rec.subrange(16, 20) =~= le32(dl as u32));
    assert(rec.subrange(20, 24) =~= le32(po));
    assert(rec.subrange(24, 28) =~= le32(pl as u32));
    assert(rec.subrange(28, 32) =~= le32((off + nl + dl + pl) as u32));
    assert(rec.subrange(32, 36) =~= le32(o.data.len() as u32));
}

/// The record of an object reads back as the kind, offsets and lengths of its
/// parts.
proof fn lemma_record_reads(m: Seq<ObjectModel>, i: int)
    requires
        encodable(m),
        0 <= i < m.len(),
    ensures
        ({
            let o = m[i];
            let off = offset_of(m, i);
            let nl = encode_utf8(o.name).len() as int;
            let dl = encode_utf8(o.description).len() as int;
            let pl = opt_properties_bytes(o.properties).len() as int;
            let r = HEADER_LEN + RECORD_LEN * i;
            let img = image(m);
            &&& off + nl + dl + pl + o.data.len() < ABSENT
            &&& read32(img, r) == kind_tag(o.kind)
            &&& read32(img, r + 4) == off
            &&& read32(img, r + 8) == nl
            &&& read32(img, r + 12) == off + nl
            &&& read32(img, r + 16) == dl
            &&& read32(img, r + 20) == (if o.properties is Some {
                (off + nl + dl) as u32
            } else {
                ABSENT
            })
            &&& read32(img, r + 24) == pl
            &&& read32(img, r + 28) == off + nl + dl + pl
            &&& read32(img, r + 32) == o.data.len()
        }),
{
    let o = m[i];
    let off = offset_of(m, i);
    let nl = encode_utf8(o.name).len() as int;
    let dl = encode_utf8(o.description).len() as int;
    let pl = opt_properties_bytes(o.properties).len() as int;
    lemma_region_piece(m, i);
    assert(blob(o).len() == nl + dl + pl + o.data.len());
    let po: u32 = if o.properties is Some {
        (off + nl + dl) as u32
    } else {
        ABSENT
    };
    lemma_record_layout(o, off);
    lemma_image_field(m, i, 0, kind_tag(o.kind));
    lemma_image_field(m, i, 1, off as u32);
    lemma_image_field(m, i, 2, nl as u32);
    lemma_image_field(m, i, 3, (off + nl) as u32);
    lemma_image_field(m, i, 4, dl as u32);
    lemma_image_field(m, i, 5, po);
    lemma_image_field(m, i, 6, pl as u32);
    lemma_image_field(m, i, 7, (off + nl + dl + pl) as u32);
    lemma_image_field(m, i, 8, o.data.len() as u32);
}

/// The parts of an object read back from the data region.
proof fn lemma_record_parts(m: Seq<ObjectModel>, i: int)
    requires
        encodable(m),
        0 <= i < m.len(),
    ensures
        ({
            let o = m[i];
            let off = offset_of(m, i);
            let nb = encode_utf8(o.name);
            let db = encode_utf8(o.description);
            let pb = opt_properties_bytes(o.properties);
            let nl = nb.len() as int;
            let dl = db.len() as int;
            let pl = pb.len() as int;
            let img = image(m);
            let base = HEADER_LEN + RECORD_LEN * m.len();
            &&& field(img, base, off as u32, nl as u32) == Some(nb)
            &&& field(img, base, (off + nl) as u32, dl as u32) == Some(db)
            &&& field(img, base, (off + nl + dl) as u32, pl as u32) == Some(pb)
            &&& field(img, base, (off + nl + dl + pl) as u32, o.data.len() as u32) == Some(o.data)
            &&& pl < ABSENT
        }),
{
    let o = m[i];
    let nb = encode_utf8(o.name);
    let db = encode_utf8(o.description);
    let pb = opt_properties_bytes(o.properties);
    let bl = blob(o);
    let nl = nb.len() as int;
    let dl = db.len() as int;
    let pl = pb.len() as int;
    lemma_region_piece(m, i);
    assert(bl.subrange(0, nl) =~= nb);
    assert(bl.subrange(nl, nl + dl) =~= db);
    assert(bl.subrange(nl + dl, nl + dl + pl) =~= pb);
    assert(bl.subrange(nl + dl + pl, bl.len() as int) =~= o.data);
    lemma_blob_field(m, i, 0, nl, nb);
    lemma_blob_field(m, i, nl, dl, db);
    lemma_blob_field(m, i, nl + dl, pl, pb);
    lemma_blob_field(m, i, nl + dl + pl, o.data.len() as int, o.data);
}

/// Each object of an encodable manifest reads back from its record.
proof fn lemma_decode_record(m: Seq<ObjectModel>, i: int)
    requires
        encodable(m),
        0 <= i < m.len(),
    ensures
        decode_record(image(m), i, m.len() as int) == Some(m[i]),
{
    reveal(decode_record);
    let o = m[i];
    let img = image(m);
    let r = HEADER_LEN + RECORD_LEN * i;
    let base = HEADER_LEN + RECORD_LEN * m.len();
    lemma_record_reads(m, i);
    lemma_record_parts(m, i);
    lemma_decode_text(o.name);
    lemma_decode_text(o.description);
    match o.properties {
        Some(ps) => {
            lemma_parse_properties(ps);
        },
        None => {},
    }
    assert(decode_properties(img, base, r) == Some(o.properties));
    assert(tag_kind(kind_tag(o.kind)) == Some(o.kind));
}

/// The first `k` objects read back in order.
proof fn lemma_decode_objects(m: Seq<ObjectModel>, k: int)
    requires
        encodable(m),
        0 <= k <= m.len(),
    ensures
        decode_objects(image(m), m.len() as int, k) == Some(m.take(k)),
    decreases k,
{
    if k == 0 {
        assert(m.take(0) =~= Seq::<ObjectModel>::empty());
    } else {
        lemma_decode_objects(m, k - 1);
        lemma_decode_record(m, k - 1);
        assert(m.take(k - 1).push(m[k - 1]) =~= m.take(k));
    }
}

/// Reading an image back by the inverse layout recovers, for every object in
/// order, its kind, name, description, properties and payload exactly.
pub proof fn lemma_round_trip(m: Seq<ObjectModel>)
    requires
        encodable(m),
    ensures
        decode_image(image(m)) == Some(m),
{
    let img = image(m);
    lemma_directory_in_order(m);
    assert(img.subrange(0, 4) =~= le32(IMAGE_MAGIC));
    assert(img.subrange(4, 8) =~= le32(IMAGE_VERSION));
    lemma_read32(img, 0, IMAGE_MAGIC);
    lemma_read32(img, 4, IMAGE_VERSION);
    lemma_read32(img, 8, m.len() as u32);
    lemma_decode_objects(m, m.len() as int);
    assert(m.take(m.len() as int) =~= m);
}

} // verus!
