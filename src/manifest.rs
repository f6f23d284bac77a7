//! The manifest of objects to embed, and its encoding as one image.
//!
//! An image is laid out as
//!   - a header: magic, format version and object count, each a little-endian `u32`;
//!   - a directory: one fixed-size record per object, in insertion order;
//!   - a data region: for each object in turn its name, description, properties
//!     (each a `u32` length and that many bytes of text) and payload.
//! A record holds nine `u32`s: the kind tag, then offset and length of the name,
//! of the description, of the properties (offset `ABSENT` where there are none)
//! and of the payload, offsets counted from the start of the data region.

use vstd::prelude::*;
use vstd::utf8::*;

verus! {

/// Identifies the image format: the bytes `DMFS`.
pub const IMAGE_MAGIC: u32 = 0x5346_4d44;

/// The version of the layout this module writes.
pub const IMAGE_VERSION: u32 = 1;

/// Bytes in the header.
pub const HEADER_LEN: usize = 12;

/// Bytes in one directory record.
pub const RECORD_LEN: usize = 36;

/// Offset that marks an object without properties; the data region stays
/// shorter than this.
pub const ABSENT: u32 = 0xffff_ffff;

/// How the bootloader interprets an object's payload.
#[derive(Clone, Copy, Debug, PartialEq, Eq, Structural)]
pub enum ManifestObjectType {
    BootMsg,
    SystemService,
    GuestOS,
}

/// An object's payload.
#[derive(Clone, Debug)]
pub enum ManifestObjectData {
    Bytes(Vec<u8>),
}

/// One entry to embed in the image.
#[derive(Clone, Debug)]
pub struct ManifestObject {
    pub kind: ManifestObjectType,
    pub name: String,
    pub description: String,
    pub data: ManifestObjectData,
    pub properties: Option<Vec<String>>,
}

/// The ordered collection of objects destined for an image.
#[derive(Clone, Debug)]
pub struct Manifest {
    objects: Vec<ManifestObject>,
}

/// What an object is, as plain values.
pub ghost struct ObjectModel {
    pub kind: ManifestObjectType,
    pub name: Seq<char>,
    pub description: Seq<char>,
    pub data: Seq<u8>,
    pub properties: Option<Seq<Seq<char>>>,
}

pub open spec fn texts_view(v: Seq<String>) -> Seq<Seq<char>> {
    v.map_values(|s: String| s@)
}

impl ManifestObjectData {
    pub open spec fn bytes(&self) -> Seq<u8> {
        match self {
            ManifestObjectData::Bytes(b) => b@,
        }
    }
}

impl View for ManifestObject {
    type V = ObjectModel;

    open spec fn view(&self) -> ObjectModel {
        ObjectModel {
            kind: self.kind,
            name: self.name@,
            description: self.description@,
            data: self.data.bytes(),
            properties: match self.properties {
                Some(ps) => Some(texts_view(ps@)),
                None => None,
            },
        }
    }
}

impl View for Manifest {
    type V = Seq<ObjectModel>;

    closed spec fn view(&self) -> Seq<ObjectModel> {
        self.objects@.map_values(|o: ManifestObject| o@)
    }
}

/// The four little-endian bytes of `x`.
pub open spec fn le32(x: u32) -> Seq<u8> {
    seq![
        (x & 0xff) as u8,
        ((x >> 8u32) & 0xff) as u8,
        ((x >> 16u32) & 0xff) as u8,
        ((x >> 24u32) & 0xff) as u8,
    ]
}

pub open spec fn kind_tag(k: ManifestObjectType) -> u32 {
    match k {
        ManifestObjectType::BootMsg => 0,
        ManifestObjectType::SystemService => 1,
        ManifestObjectType::GuestOS => 2,
    }
}

/// One property: its length in bytes, then its UTF-8 bytes.
pub open spec fn property_bytes(p: Seq<char>) -> Seq<u8> {
    le32(encode_utf8(p).len() as u32) + encode_utf8(p)
}

pub open spec fn properties_bytes(ps: Seq<Seq<char>>) -> Seq<u8>
    decreases ps.len(),
{
    if ps.len() == 0 {
        Seq::empty()
    } else {
        properties_bytes(ps.drop_last()) + property_bytes(ps.last())
    }
}

pub open spec fn opt_properties_bytes(p: Option<Seq<Seq<char>>>) -> Seq<u8> {
    match p {
        Some(ps) => properties_bytes(ps),
        None => Seq::empty(),
    }
}

/// What an object contributes to the data region.
pub open spec fn blob(o: ObjectModel) -> Seq<u8> {
    encode_utf8(o.name) + encode_utf8(o.description) + opt_properties_bytes(o.properties) + o.data
}

/// The data region of a sequence of objects.
pub open spec fn region(m: Seq<ObjectModel>) -> Seq<u8>
    decreases m.len(),
{
    if m.len() == 0 {
        Seq::empty()
    } else {
        region(m.drop_last()) + blob(m.last())
    }
}

/// Where the `i`th object's bytes start in the data region.
pub open spec fn offset_of(m: Seq<ObjectModel>, i: int) -> int {
    region(m.take(i)).len() as int
}

/// The directory record of an object whose bytes start at `off`.
pub open spec fn record_at(o: ObjectModel, off: int) -> Seq<u8> {
    let nl = encode_utf8(o.name).len() as int;
    let dl = encode_utf8(o.description).len() as int;
    let pl = opt_properties_bytes(o.properties).len() as int;
    le32(kind_tag(o.kind)) + le32(off as u32) + le32(nl as u32) + le32((off + nl) as u32) + le32(
        dl as u32,
    ) + le32(
        if o.properties is Some {
            (off + nl + dl) as u32
        } else {
            ABSENT
        },
    ) + le32(pl as u32) + le32((off + nl + dl + pl) as u32) + le32(o.data.len() as u32)
}

/// The directory record of the `i`th object.
pub open spec fn record(m: Seq<ObjectModel>, i: int) -> Seq<u8> {
    record_at(m[i], offset_of(m, i))
}

/// The records of the first `n` objects.
pub open spec fn directory(m: Seq<ObjectModel>, n: int) -> Seq<u8>
    decreases n,
{
    if n <= 0 {
        Seq::empty()
    } else {
        directory(m, n - 1) + record(m, n - 1)
    }
}

pub open spec fn header(m: Seq<ObjectModel>) -> Seq<u8> {
    le32(IMAGE_MAGIC) + le32(IMAGE_VERSION) + le32(m.len() as u32)
}

/// The image of a sequence of objects.
pub open spec fn image(m: Seq<ObjectModel>) -> Seq<u8> {
    header(m) + directory(m, m.len() as int) + region(m)
}

/// Every count, offset and length of the image fits its `u32` field.
pub open spec fn encodable(m: Seq<ObjectModel>) -> bool {
    m.len() <= u32::MAX && region(m).len() < ABSENT
}

/// Why no image could be made.
#[derive(Clone, Copy, Debug, PartialEq, Eq, Structural)]
pub enum ImageError {
    /// A count, offset or length does not fit its field.
    TooLarge,
}

fn push_le32(out: &mut Vec<u8>, x: u32)
    ensures
        final(out)@ == old(out)@ + le32(x),
{
    out.push((x & 0xff) as u8);
    out.push(((x >> 8u32) & 0xff) as u8);
    out.push(((x >> 16u32) & 0xff) as u8);
    out.push(((x >> 24u32) & 0xff) as u8);
    assert(final(out)@ =~= old(out)@ + le32(x));
}

fn push_bytes(out: &mut Vec<u8>, b: &[u8])
    ensures
        final(out)@ == old(out)@ + b@,
{
    let ghost start = out@;
    let mut i: usize = 0;
    while i < b.len()
        invariant
            i <= b@.len(),
            out@ == start + b@.take(i as int),
        decreases b@.len() - i,
    {
        out.push(b[i]);
        i = i + 1;
        assert(out@ =~= start + b@.take(i as int));
    }
    assert(b@.take(i as int) =~= b@);
}

fn push_properties(out: &mut Vec<u8>, ps: &Vec<String>)
    ensures
        final(out)@ == old(out)@ + properties_bytes(texts_view(ps@)),
{
    let ghost start = out@;
    let mut j: usize = 0;
    while j < ps.len()
        invariant
            j <= ps@.len(),
            out@ == start + properties_bytes(texts_view(ps@).take(j as int)),
        decreases ps@.len() - j,
    {
        let b = ps[j].as_str().as_bytes();
        push_le32(out, b.len() as u32);
        push_bytes(out, b);
        proof {
            let v = texts_view(ps@);
            assert(v.take(j + 1).drop_last() =~= v.take(j as int));
        }
        j = j + 1;
        assert(out@ =~= start + properties_bytes(texts_view(ps@).take(j as int)));
    }
    assert(texts_view(ps@).take(j as int) =~= texts_view(ps@));
}

impl ManifestObject {
    /// An object made of the given parts.
    pub fn new(
        kind: ManifestObjectType,
        name: String,
        description: String,
        data: ManifestObjectData,
        properties: Option<Vec<String>>,
    ) -> (r: ManifestObject)
        ensures
            r.kind == kind,
            r.name == name,
            r.description == description,
            r.data == data,
            r.properties == properties,
    {
        ManifestObject { kind, name, description, data, properties }
    }

    /// The bytes this object contributes to the data region.
    fn blob_bytes(&self) -> (r: Vec<u8>)
        ensures
            r@ == blob(self@),
    {
        let mut out: Vec<u8> = Vec::new();
        push_bytes(&mut out, self.name.as_str().as_bytes());
        push_bytes(&mut out, self.description.as_str().as_bytes());
        match &self.properties {
            Some(ps) => push_properties(&mut out, ps),
            None => {},
        }
        match &self.data {
            ManifestObjectData::Bytes(b) => push_bytes(&mut out, b.as_slice()),
        }
        assert(out@ =~= blob(self@));
        out
    }
}

/// The data region grows as objects are added.
proof fn lemma_region_step(m: Seq<ObjectModel>, i: int)
    requires
        0 <= i < m.len(),
    ensures
        region(m.take(i + 1)) == region(m.take(i)) + blob(m[i]),
{
    assert(m.take(i + 1).drop_last() =~= m.take(i));
}

/// The data region of a prefix is no longer than the whole region.
proof fn lemma_region_prefix_len(m: Seq<ObjectModel>, i: int)
    requires
        0 <= i <= m.len(),
    ensures
        region(m.take(i)).len() <= region(m).len(),
    decreases m.len() - i,
{
    if i < m.len() {
        lemma_region_step(m, i);
        lemma_region_prefix_len(m, i + 1);
    } else {
        assert(m.take(i) =~= m);
    }
}

impl Manifest {
    /// An empty manifest.
    pub fn new() -> (r: Manifest)
        ensures
            r@ == Seq::<ObjectModel>::empty(),
    {
        let r = Manifest { objects: Vec::new() };
        assert(r@ =~= Seq::<ObjectModel>::empty());
        r
    }

    /// Appends an object; earlier objects keep their places.
    pub fn add(&mut self, object: ManifestObject)
        ensures
            final(self)@ == old(self)@.push(object@),
    {
        self.objects.push(object);
        assert(final(self)@ =~= old(self)@.push(object@));
    }

    /// The number of objects added so far.
    pub fn len(&self) -> (r: usize)
        ensures
            r == self@.len(),
    {
        self.objects.len()
    }

    /// Encodes every object, in insertion order, as one image. Fails, and
    /// returns no bytes, where a count, offset or length does not fit its field.
    pub fn to_image(&self) -> (r: Result<Vec<u8>, ImageError>)
        ensures
            match r {
                Ok(b) => encodable(self@) && b@ == image(self@),
                Err(e) => !encodable(self@) && e == ImageError::TooLarge,
            },
    {
        let n = self.objects.len();
        if n as u64 > 0xffff_ffffu64 {
            return Err(ImageError::TooLarge);
        }
        let ghost m = self@;
        let mut dir: Vec<u8> = Vec::new();
        let mut data: Vec<u8> = Vec::new();
        let mut i: usize = 0;
        while i < n
            invariant
                n == m.len(),
                m == self@,
                n <= u32::MAX,
                i <= n,
                dir@ == directory(m, i as int),
                data@ == region(m.take(i as int)),
                data@.len() < ABSENT,
            decreases n - i,
        {
            let obj = &self.objects[i];
            assert(m[i as int] == obj@);
            let mut b = obj.blob_bytes();
            proof {
                lemma_region_step(m, i as int);
                lemma_region_prefix_len(m, i + 1);
            }
            if b.len() >= 0xffff_ffffusize - data.len() {
                return Err(ImageError::TooLarge);
            }
            push_record(&mut dir, obj, data.len() as u32, b.len());
            data.append(&mut b);
            i = i + 1;
            assert(dir@ =~= directory(m, i as int));
        }
        assert(m.take(n as int) =~= m);
        let mut out: Vec<u8> = Vec::new();
        push_le32(&mut out, IMAGE_MAGIC);
        push_le32(&mut out, IMAGE_VERSION);
        push_le32(&mut out, n as u32);
        out.append(&mut dir);
        out.append(&mut data);
        assert(out@ =~= image(m));
        Ok(out)
    }
}

/// Appends the record of `obj`, whose bytes start at `off` and take `blob_len`.
fn push_record(dir: &mut Vec<u8>, obj: &ManifestObject, off: u32, blob_len: usize)
    requires
        blob_len == blob(obj@).len(),
        off + blob_len < ABSENT,
    ensures
        final(dir)@ == old(dir)@ + record_at(obj@, off as int),
{
    let nl = obj.name.as_str().len() as u32;
    let dl = obj.description.as_str().len() as u32;
    let bl = match &obj.data {
        ManifestObjectData::Bytes(p) => p.len(),
    };
    let pl = (blob_len - nl as usize - dl as usize - bl) as u32;
    push_le32(dir, kind_tag_of(obj.kind));
    push_le32(dir, off);
    push_le32(dir, nl);
    push_le32(dir, off + nl);
    push_le32(dir, dl);
    let po = if obj.properties.is_some() {
        off + nl + dl
    } else {
        ABSENT
    };
    push_le32(dir, po);
    push_le32(dir, pl);
    push_le32(dir, off + nl + dl + pl);
    push_le32(dir, bl as u32);
    assert(final(dir)@ =~= old(dir)@ + record_at(obj@, off as int));
}

proof fn lemma_directory_len(m: Seq<ObjectModel>, k: int)
    requires
        0 <= k <= m.len(),
    ensures
        directory(m, k).len() == RECORD_LEN * k,
    decreases k,
{
    if k > 0 {
        lemma_directory_len(m, k - 1);
    }
}

proof fn lemma_directory_record(m: Seq<ObjectModel>, k: int, i: int)
    requires
        0 <= i < k <= m.len(),
    ensures
        directory(m, k).subrange(RECORD_LEN * i, RECORD_LEN * i + RECORD_LEN) == record(m, i),
    decreases k,
{
    lemma_directory_len(m, k - 1);
    let d = directory(m, k - 1);
    if i == k - 1 {
        assert(directory(m, k).subrange(RECORD_LEN * i, RECORD_LEN * i + RECORD_LEN) =~= record(m, i));
    } else {
        lemma_directory_record(m, k - 1, i);
        assert(directory(m, k).subrange(RECORD_LEN * i, RECORD_LEN * i + RECORD_LEN) =~= d.subrange(
            RECORD_LEN * i,
            RECORD_LEN * i + RECORD_LEN,
        ));
    }
}

/// An image of `n` objects states the count `n` and holds exactly `n`
/// directory records, the `i`th of them describing the `i`th object added;
/// the data region follows the last record.
pub proof fn lemma_directory_in_order(m: Seq<ObjectModel>)
    requires
        encodable(m),
    ensures
        image(m).subrange(8, 12) == le32(m.len() as u32),
        image(m).len() == HEADER_LEN + RECORD_LEN * m.len() + region(m).len(),
        forall|i: int|
            0 <= i < m.len() ==> #[trigger] image(m).subrange(
                HEADER_LEN + RECORD_LEN * i,
                HEADER_LEN + RECORD_LEN * i + RECORD_LEN,
            ) == record_at(m[i], offset_of(m, i)),
        image(m).subrange(HEADER_LEN + RECORD_LEN * m.len(), image(m).len() as int) == region(m),
{
    let n = m.len() as int;
    lemma_directory_len(m, n);
    let img = image(m);
    assert(img.subrange(8, 12) =~= le32(m.len() as u32));
    assert forall|i: int| 0 <= i < n implies #[trigger] img.subrange(
        HEADER_LEN + RECORD_LEN * i,
        HEADER_LEN + RECORD_LEN * i + RECORD_LEN,
    ) == record_at(m[i], offset_of(m, i)) by {
        lemma_directory_record(m, n, i);
        assert(img.subrange(HEADER_LEN + RECORD_LEN * i, HEADER_LEN + RECORD_LEN * i + RECORD_LEN)
            =~= directory(m, n).subrange(RECORD_LEN * i, RECORD_LEN * i + RECORD_LEN));
    }
    assert(img.subrange(HEADER_LEN + RECORD_LEN * n, img.len() as int) =~= region(m));
}

/// Adding `a` and then `b` to a manifest puts the record of `a` right before
/// the record of `b`, after those of the objects already there.
pub proof fn lemma_add_order(m: Seq<ObjectModel>, a: ObjectModel, b: ObjectModel)
    ensures
        record(m.push(a).push(b), m.len() as int).subrange(0, 4) == le32(kind_tag(a.kind)),
        record(m.push(a).push(b), m.len() + 1 as int).subrange(0, 4) == le32(kind_tag(b.kind)),
        m.push(a).push(b)[m.len() as int] == a,
        m.push(a).push(b)[m.len() + 1 as int] == b,
        forall|i: int| 0 <= i < m.len() ==> #[trigger] m.push(a).push(b)[i] == m[i],
{
    let m2 = m.push(a).push(b);
    assert(record(m2, m.len() as int).subrange(0, 4) =~= le32(kind_tag(a.kind)));
    assert(record(m2, m.len() + 1 as int).subrange(0, 4) =~= le32(kind_tag(b.kind)));
}

/// Encoding depends on the manifest's contents alone: two manifests with the
/// same objects encode to the same bytes, so encoding twice gives identical
/// output.
pub proof fn lemma_encoding_deterministic(x: &Manifest, y: &Manifest)
    requires
        x@ == y@,
    ensures
        encodable(x@) == encodable(y@),
        image(x@) == image(y@),
{
}

fn kind_tag_of(k: ManifestObjectType) -> (r: u32)
    ensures
        r == kind_tag(k),
{
    match k {
        ManifestObjectType::BootMsg => 0,
        ManifestObjectType::SystemService => 1,
        ManifestObjectType::GuestOS => 2,
    }
}

} // verus!
