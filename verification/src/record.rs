//! Building one table row from one decoded file.
//!
//! The container decoder hands over the file's units in order: the primary
//! descriptive block with its header cards first, image payloads at a
//! small fixed set of candidate positions.  From those units, a requested
//! field list and the file's path, the builder produces a single-row table:
//! one column per requested header field, the flattened image with its
//! shape, and file-name-derived metadata.  Each failure is a typed error
//! naming the file and what was missing.

use vstd::prelude::*;

use crate::errors::IngestionError;
use crate::image::{logical_values, spec_widen, ImagePayload};
use crate::paths::{has_fits_extension, parse_scan_id, spec_has_fits_ext, spec_scan_id_of_stem,
    spec_stem, stem_of, str_eq};
use crate::table::{cells_view, distinct_names, str_views, CellV, CellValue, ColV, Column, Table,
    TableV};

verus! {

/// One header card: a key with its scalar value.
pub struct HeaderEntry {
    pub key: String,
    pub value: CellValue,
}

/// Mathematical model of one header card.
pub struct HeaderEntryV {
    pub key: Seq<char>,
    pub value: CellV,
}

impl View for HeaderEntry {
    type V = HeaderEntryV;

    open spec fn view(&self) -> HeaderEntryV {
        HeaderEntryV { key: self.key@, value: self.value@ }
    }
}

/// One unit of the decoded container, in file order.
pub enum Hdu {
    /// The primary descriptive block with its header cards.
    Primary(Vec<HeaderEntry>),
    /// An image payload.
    Image(ImagePayload),
    /// Any other kind of unit; its content plays no part here.
    OtherKind,
}

/// Mathematical model of one container unit.
pub enum HduV {
    Primary(Seq<HeaderEntryV>),
    Image(crate::image::ImagePayloadV),
    OtherKind,
}

impl View for Hdu {
    type V = HduV;

    open spec fn view(&self) -> HduV {
        match self {
            Hdu::Primary(v) => HduV::Primary(v@.map_values(|e: HeaderEntry| e@)),
            Hdu::Image(p) => HduV::Image(p@),
            Hdu::OtherKind => HduV::OtherKind,
        }
    }
}

/// The models of a unit vector.
pub open spec fn hdus_view(hdus: Seq<Hdu>) -> Seq<HduV> {
    hdus.map_values(|h: Hdu| h@)
}

/// The first value stored under a key, if any.
pub open spec fn header_lookup(h: Seq<HeaderEntryV>, key: Seq<char>) -> Option<CellV>
    decreases h.len(),
{
    if h.len() == 0 {
        None
    } else if h.first().key == key {
        Some(h.first().value)
    } else {
        header_lookup(h.drop_first(), key)
    }
}

/// The value of an optional cell, null when absent.
pub open spec fn or_null(o: Option<CellV>) -> CellV {
    match o {
        Some(c) => c,
        None => CellV::Null,
    }
}

/// A lookup skips a prefix in which the key does not occur.
pub proof fn lemma_header_lookup_skip(h: Seq<HeaderEntryV>, key: Seq<char>, i: int)
    requires
        0 <= i <= h.len(),
        forall|j: int| 0 <= j < i ==> (#[trigger] h[j].key) != key,
    ensures
        header_lookup(h, key) == header_lookup(h.skip(i), key),
    decreases i,
{
    if i == 0 {
        assert(h.skip(0) =~= h);
    } else {
        assert(h[0].key != key);
        assert(forall|j: int|
            0 <= j < i - 1 ==> (#[trigger] h.drop_first()[j].key) != key) by {
            assert(forall|j: int| 0 <= j < i - 1 ==> h.drop_first()[j] == h[j + 1]);
        }
        lemma_header_lookup_skip(h.drop_first(), key, i - 1);
        assert(h.drop_first().skip(i - 1) =~= h.skip(i));
    }
}

/// Retrieves the value stored under a key, if any.
pub fn header_get(h: &Vec<HeaderEntry>, key: &String) -> (r: Option<CellValue>)
    ensures
        match r {
            Some(c) => header_lookup(h@.map_values(|e: HeaderEntry| e@), key@) == Some(c@),
            None => header_lookup(h@.map_values(|e: HeaderEntry| e@), key@) is None,
        },
{
    let ghost hv = h@.map_values(|e: HeaderEntry| e@);
    let n = h.len();
    for i in 0..n
        invariant
            n == h@.len(),
            hv == h@.map_values(|e: HeaderEntry| e@),
            forall|j: int| 0 <= j < i ==> (#[trigger] hv[j].key) != key@,
    {
        if h[i].key.eq(key) {
            proof {
                lemma_header_lookup_skip(hv, key@, i as int);
                assert(hv.skip(i as int).first() == hv[i as int]);
            }
            return Some(h[i].value.duplicate());
        }
        assert(hv[i as int].key != key@);
    }
    proof {
        lemma_header_lookup_skip(hv, key@, n as int);
        assert(hv.skip(n as int) =~= Seq::<HeaderEntryV>::empty());
    }
    None
}

/// The requested field keys that are header lookups: every field except
/// the derived-quantity name, which is computed, never looked up.
pub open spec fn spec_field_keys(fields: Seq<Seq<char>>) -> Seq<Seq<char>>
    decreases fields.len(),
{
    if fields.len() == 0 {
        Seq::empty()
    } else if fields.first() == "Q"@ {
        spec_field_keys(fields.drop_first())
    } else {
        seq![fields.first()] + spec_field_keys(fields.drop_first())
    }
}

/// `spec_field_keys` distributes over concatenation.
pub proof fn lemma_field_keys_concat(f1: Seq<Seq<char>>, f2: Seq<Seq<char>>)
    ensures
        spec_field_keys(f1 + f2) == spec_field_keys(f1) + spec_field_keys(f2),
    decreases f1.len(),
{
    if f1.len() == 0 {
        assert(f1 + f2 =~= f2);
        assert(spec_field_keys(f1) + spec_field_keys(f2) =~= spec_field_keys(f2));
    } else {
        assert((f1 + f2).len() > 0);
        assert((f1 + f2).first() == f1.first());
        assert((f1 + f2).drop_first() =~= f1.drop_first() + f2);
        lemma_field_keys_concat(f1.drop_first(), f2);
        if f1.first() == "Q"@ {
        } else {
            assert(seq![f1.first()] + (spec_field_keys(f1.drop_first()) + spec_field_keys(f2))
                =~= (seq![f1.first()] + spec_field_keys(f1.drop_first())) + spec_field_keys(f2));
        }
    }
}

/// `spec_field_keys` of a one-element sequence.
pub proof fn lemma_field_keys_singleton(n: Seq<char>)
    ensures
        spec_field_keys(seq![n]) == if n == "Q"@ {
            Seq::<Seq<char>>::empty()
        } else {
            seq![n]
        },
{
    assert(seq![n].first() == n);
    let e = Seq::<Seq<char>>::empty();
    assert(seq![n].drop_first() =~= e);
    assert(seq![n].drop_first() == e);
    assert(spec_field_keys(e) == e);
    if n != "Q"@ {
        assert(seq![n] + e =~= seq![n]);
    }
}

/// The first requested key missing from the header, if any.
pub open spec fn spec_missing_field(h: Seq<HeaderEntryV>, keys: Seq<Seq<char>>) -> Option<
    Seq<char>,
>
    decreases keys.len(),
{
    if keys.len() == 0 {
        None
    } else if header_lookup(h, keys.first()) is None {
        Some(keys.first())
    } else {
        spec_missing_field(h, keys.drop_first())
    }
}

/// The first missing key is unaffected by a prefix of present keys.
pub proof fn lemma_missing_field_skip(h: Seq<HeaderEntryV>, keys: Seq<Seq<char>>, i: int)
    requires
        0 <= i <= keys.len(),
        forall|j: int| 0 <= j < i ==> !(header_lookup(h, #[trigger] keys[j]) is None),
    ensures
        spec_missing_field(h, keys) == spec_missing_field(h, keys.skip(i)),
    decreases i,
{
    if i == 0 {
        assert(keys.skip(0) =~= keys);
    } else {
        assert(!(header_lookup(h, keys[0]) is None));
        assert(forall|j: int|
            0 <= j < i - 1 ==> !(header_lookup(h, #[trigger] keys.drop_first()[j]) is None)) by {
            assert(forall|j: int| 0 <= j < i - 1 ==> keys.drop_first()[j] == keys[j + 1]);
        }
        lemma_missing_field_skip(h, keys.drop_first(), i - 1);
        assert(keys.drop_first().skip(i - 1) =~= keys.skip(i));
    }
}

/// Whether a name is one of the columns the builder itself adds.
pub open spec fn spec_reserved(n: Seq<char>) -> bool {
    n == "Image"@ || n == "Shape"@ || n == "File Name"@ || n == "Scan ID"@
}

/// Whether the requested keys can stand as column names beside the
/// builder's own: pairwise distinct and none reserved.
pub open spec fn spec_cols_ok(keys: Seq<Seq<char>>) -> bool {
    &&& distinct_names(keys)
    &&& forall|i: int| 0 <= i < keys.len() ==> !spec_reserved(#[trigger] keys[i])
}

/// The index of the image payload: the canonical position first, then the
/// single documented fallback position.
pub open spec fn spec_image_index(hdus: Seq<HduV>) -> Option<int> {
    if hdus.len() > 2 && hdus[2] is Image {
        Some(2)
    } else if hdus.len() > 1 && hdus[1] is Image {
        Some(1)
    } else {
        None
    }
}

/// The single-row table a successful build produces.
pub open spec fn spec_record_table(
    header: Seq<HeaderEntryV>,
    keys: Seq<Seq<char>>,
    img: Seq<i64>,
    rows: int,
    cols: int,
    stem: Seq<char>,
) -> TableV {
    TableV {
        cols: keys.map_values(
            |k: Seq<char>| ColV { name: k, cells: seq![or_null(header_lookup(header, k))] },
        ) + seq![
            ColV { name: "Image"@, cells: seq![CellV::IntList(img)] },
            ColV {
                name: "Shape"@,
                cells: seq![CellV::IntList(seq![rows as i64, cols as i64])],
            },
            ColV { name: "File Name"@, cells: seq![CellV::Str(stem)] },
            ColV {
                name: "Scan ID"@,
                cells: seq![
                    match spec_scan_id_of_stem(stem) {
                        Some(v) => CellV::Int(v),
                        None => CellV::Null,
                    },
                ],
            },
        ],
    }
}

/// What building a record comes to, for every input.
pub enum RecordOutcome {
    /// The single-row table.
    Row(TableV),
    /// The path does not carry the `fits` extension.
    BadExtension,
    /// The first container position does not hold the primary header.
    NoPrimaryHeader,
    /// The named requested field is absent from the header.
    MissingField(Seq<char>),
    /// No image payload at either candidate position.
    NoImagePayload,
    /// The payload's element encoding is unsupported.
    BadEncoding,
    /// The payload's sample count or extents contradict its shape.
    BadShape,
    /// The requested keys collide with each other or with the builder's
    /// own column names.
    BadColumns,
}

/// The record a file yields: checks in order, then the single-row table.
pub open spec fn spec_build_record(
    path: Seq<char>,
    hdus: Seq<HduV>,
    fields: Seq<Seq<char>>,
) -> RecordOutcome {
    let keys = spec_field_keys(fields);
    if !spec_has_fits_ext(path) {
        RecordOutcome::BadExtension
    } else if !(hdus.len() > 0 && hdus[0] is Primary) {
        RecordOutcome::NoPrimaryHeader
    } else {
        let header = hdus[0]->Primary_0;
        match spec_missing_field(header, keys) {
            Some(k) => RecordOutcome::MissingField(k),
            None => match spec_image_index(hdus) {
                None => RecordOutcome::NoImagePayload,
                Some(ix) => {
                    let p = hdus[ix]->Image_0;
                    if p.data is Unsupported {
                        RecordOutcome::BadEncoding
                    } else if !(logical_values(p.data).len() == p.rows * p.cols && p.rows
                        <= i64::MAX && p.cols <= i64::MAX) {
                        RecordOutcome::BadShape
                    } else if !spec_cols_ok(keys) {
                        RecordOutcome::BadColumns
                    } else {
                        RecordOutcome::Row(
                            spec_record_table(
                                header,
                                keys,
                                spec_widen(p.data),
                                p.rows as int,
                                p.cols as int,
                                spec_stem(path),
                            ),
                        )
                    }
                },
            },
        }
    }
}

/// The image payload at the canonical position, else at the fallback.
fn image_of(hdus: &Vec<Hdu>) -> (r: Option<&ImagePayload>)
    ensures
        match r {
            Some(p) => spec_image_index(hdus_view(hdus@)) matches Some(ix) && hdus_view(
                hdus@,
            )[ix]->Image_0 == p@,
            None => spec_image_index(hdus_view(hdus@)) is None,
        },
{
    if hdus.len() > 2 {
        match &hdus[2] {
            Hdu::Image(p) => {
                assert(hdus_view(hdus@)[2] == hdus@[2]@);
                return Some(p);
            },
            _ => {
                assert(!(hdus_view(hdus@)[2] is Image));
            },
        }
    }
    if hdus.len() > 1 {
        match &hdus[1] {
            Hdu::Image(p) => {
                assert(hdus_view(hdus@)[1] == hdus@[1]@);
                return Some(p);
            },
            _ => {
                assert(!(hdus_view(hdus@)[1] is Image));
            },
        }
    }
    None
}

/// Looks every key up in the header: all the values in key order, or the
/// index of the first missing key.
fn lookup_fields(header: &Vec<HeaderEntry>, keys: &Vec<String>) -> (r: Result<
    Vec<CellValue>,
    usize,
>)
    ensures
        ({
            let hdr = header@.map_values(|e: HeaderEntry| e@);
            let kv = str_views(keys@);
            match r {
                Ok(cs) => spec_missing_field(hdr, kv) is None && cs@.len() == kv.len()
                    && forall|j: int|
                    0 <= j < kv.len() ==> (#[trigger] cs@[j]@) == or_null(
                        header_lookup(hdr, kv[j]),
                    ),
                Err(i) => i < kv.len() && spec_missing_field(hdr, kv) == Some(kv[i as int]),
            }
        }),
{
    let ghost hdr = header@.map_values(|e: HeaderEntry| e@);
    let ghost kv = str_views(keys@);
    let mut cells: Vec<CellValue> = Vec::new();
    let nk = keys.len();
    for i in 0..nk
        invariant
            nk == keys@.len(),
            hdr == header@.map_values(|e: HeaderEntry| e@),
            kv == str_views(keys@),
            cells@.len() == i,
            forall|j: int| 0 <= j < i ==> !(header_lookup(hdr, #[trigger] kv[j]) is None),
            forall|j: int|
                0 <= j < i ==> (#[trigger] cells@[j]@) == or_null(header_lookup(hdr, kv[j])),
    {
        assert(kv[i as int] == keys@[i as int]@);
        match header_get(header, &keys[i]) {
            Some(c) => {
                cells.push(c);
            },
            None => {
                proof {
                    lemma_missing_field_skip(hdr, kv, i as int);
                    assert(kv.skip(i as int).first() == kv[i as int]);
                    assert(spec_missing_field(hdr, kv) == Some(kv[i as int]));
                }
                return Err(i);
            },
        }
    }
    proof {
        lemma_missing_field_skip(hdr, kv, nk as int);
        assert(kv.skip(nk as int) =~= Seq::<Seq<char>>::empty());
    }
    Ok(cells)
}

/// Whether the keys can stand as column names beside the builder's own.
fn check_cols_ok(keys: &Vec<String>) -> (b: bool)
    ensures
        b == spec_cols_ok(str_views(keys@)),
{
    let ghost kv = str_views(keys@);
    let nk = keys.len();
    for i in 0..nk
        invariant
            nk == keys@.len(),
            kv == str_views(keys@),
            forall|j: int| 0 <= j < i ==> !spec_reserved(#[trigger] kv[j]),
            forall|j1: int, j2: int| 0 <= j1 < j2 < i ==> kv[j1] != kv[j2],
    {
        assert(kv[i as int] == keys@[i as int]@);
        let ks = keys[i].as_str();
        if str_eq(ks, "Image") || str_eq(ks, "Shape") || str_eq(ks, "File Name") || str_eq(
            ks,
            "Scan ID",
        ) {
            assert(spec_reserved(kv[i as int]));
            return false;
        }
        for j in 0..i
            invariant
                nk == keys@.len(),
                kv == str_views(keys@),
                i < nk,
                forall|j2: int| 0 <= j2 < j ==> kv[j2] != kv[i as int],
        {
            assert(kv[j as int] == keys@[j as int]@);
            if keys[j].eq(&keys[i]) {
                assert(kv[j as int] == kv[i as int]);
                assert(!distinct_names(kv));
                return false;
            }
        }
    }
    true
}

/// Builds the single row one file contributes to the aggregate table.
///
/// The path must carry the `fits` extension; the first container unit must
/// be the primary header; every requested field but the derived-quantity
/// name must be present in it; an image payload must stand at one of the
/// two candidate positions, in a supported encoding and consistent with
/// its shape; and the requested keys must be usable as column names.  The
/// resulting row holds the requested fields in order, then the flattened
/// image, its shape, and the file-name metadata.
pub fn build_record(path: &String, hdus: &Vec<Hdu>, fields: &Vec<String>) -> (r: Result<
    Table,
    IngestionError,
>)
    ensures
        ({
            let out = spec_build_record(path@, hdus_view(hdus@), str_views(fields@));
            match out {
                RecordOutcome::Row(t) => r matches Ok(tab) && tab@ == t && t.wf() && t.height()
                    == 1,
                RecordOutcome::BadExtension => r matches Err(e) && e
                    matches IngestionError::NotAFitsFile(p) && p@ == path@,
                RecordOutcome::NoPrimaryHeader => r matches Err(e) && e
                    matches IngestionError::ContainerDecodeFailure(p, _) && p@ == path@,
                RecordOutcome::MissingField(k) => r matches Err(e) && e
                    matches IngestionError::MissingHeaderField(p, f) && p@ == path@ && f@ == k,
                RecordOutcome::NoImagePayload => r matches Err(e) && e
                    matches IngestionError::MissingImageHdu(p) && p@ == path@,
                RecordOutcome::BadEncoding => r matches Err(e) && e
                    matches IngestionError::UnsupportedImageEncoding(p) && p@ == path@,
                RecordOutcome::BadShape => r matches Err(e) && e
                    matches IngestionError::ContainerDecodeFailure(p, _) && p@ == path@,
                RecordOutcome::BadColumns => r matches Err(e) && e
                    matches IngestionError::TableConstructionFailure,
            }
        }),
        r matches Err(e) ==> e.is_per_file(),
{
    let ghost hv = hdus_view(hdus@);
    let ghost fv = str_views(fields@);
    let ghost keys_spec = spec_field_keys(fv);
    if !has_fits_extension(path.as_str()) {
        return Err(IngestionError::NotAFitsFile(path.clone()));
    }
    if hdus.len() == 0 {
        return Err(
            IngestionError::ContainerDecodeFailure(
                path.clone(),
                String::from_str("the container is empty"),
            ),
        );
    }
    let header: &Vec<HeaderEntry> = match &hdus[0] {
        Hdu::Primary(v) => v,
        _ => {
            assert(!(hv[0] is Primary));
            return Err(
                IngestionError::ContainerDecodeFailure(
                    path.clone(),
                    String::from_str("no primary header at the first container position"),
                ),
            );
        },
    };
    let ghost hdr = hv[0]->Primary_0;
    assert(hdr == header@.map_values(|e: HeaderEntry| e@));
    // keep every requested field but the derived-quantity name
    let mut keys: Vec<String> = Vec::new();
    let nf = fields.len();
    assert(fv.take(0) =~= Seq::<Seq<char>>::empty());
    assert(str_views(keys@) =~= spec_field_keys(fv.take(0)));
    for i in 0..nf
        invariant
            nf == fields@.len(),
            fv == str_views(fields@),
            str_views(keys@) == spec_field_keys(fv.take(i as int)),
    {
        proof {
            assert(fv[i as int] == fields@[i as int]@);
            assert(fv.take(i + 1) =~= fv.take(i as int) + seq![fv[i as int]]);
            lemma_field_keys_concat(fv.take(i as int), seq![fv[i as int]]);
            lemma_field_keys_singleton(fv[i as int]);
        }
        if !str_eq(fields[i].as_str(), "Q") {
            let ghost keys_old = keys@;
            keys.push(fields[i].clone());
            proof {
                assert(str_views(keys@) =~= str_views(keys_old) + seq![fv[i as int]]);
                assert(str_views(keys@) =~= spec_field_keys(fv.take(i + 1)));
            }
        } else {
            proof {
                assert(str_views(keys@) =~= spec_field_keys(fv.take(i + 1)));
            }
        }
    }
    proof {
        assert(fv.take(nf as int) =~= fv);
    }
    let ghost kv = str_views(keys@);
    assert(kv == keys_spec);
    // look every remaining field up in the header
    let nk = keys.len();
    let cells: Vec<CellValue> = match lookup_fields(header, &keys) {
        Ok(cs) => cs,
        Err(i) => {
            return Err(IngestionError::MissingHeaderField(path.clone(), keys[i].clone()));
        },
    };
    assert(spec_missing_field(hdr, kv) is None);
    // the image payload, canonical position first
    let payload: &ImagePayload = match image_of(hdus) {
        Some(p) => p,
        None => {
            return Err(IngestionError::MissingImageHdu(path.clone()));
        },
    };
    let img = match payload.widen(path) {
        Ok(d) => d,
        Err(e) => {
            return Err(e);
        },
    };
    // the requested keys must be usable as column names
    if !check_cols_ok(&keys) {
        return Err(IngestionError::TableConstructionFailure);
    }
    assert(spec_cols_ok(kv));
    // assemble the row
    let stem = stem_of(path.as_str());
    let scan = parse_scan_id(path.as_str());
    let mut cols: Vec<Column> = Vec::new();
    for i in 0..nk
        invariant
            nk == keys@.len(),
            nk == cells@.len(),
            kv == str_views(keys@),
            hdr == hv[0]->Primary_0,
            forall|j: int|
                0 <= j < nk ==> (#[trigger] cells@[j]@) == or_null(header_lookup(hdr, kv[j])),
            cols@.len() == i,
            forall|j: int|
                0 <= j < i ==> (#[trigger] cols@[j]@) == (ColV {
                    name: kv[j],
                    cells: seq![or_null(header_lookup(hdr, kv[j]))],
                }),
    {
        assert(kv[i as int] == keys@[i as int]@);
        let mut cv: Vec<CellValue> = Vec::new();
        cv.push(cells[i].duplicate());
        cols.push(Column { name: keys[i].clone(), cells: cv });
        proof {
            assert(cols@[i as int]@.cells =~= seq![or_null(header_lookup(hdr, kv[i as int]))]);
            assert(cols@[i as int]@ =~= (ColV {
                name: kv[i as int],
                cells: seq![or_null(header_lookup(hdr, kv[i as int]))],
            }));
        }
    }
    let ghost imgv = img.values@;
    let ghost rows_g = img.rows as int;
    let ghost cols_g = img.cols as int;
    let mut icv: Vec<CellValue> = Vec::new();
    icv.push(CellValue::IntList(img.values));
    cols.push(Column { name: String::from_str("Image"), cells: icv });
    let mut shape: Vec<i64> = Vec::new();
    shape.push(img.rows as i64);
    shape.push(img.cols as i64);
    assert(shape@ =~= seq![rows_g as i64, cols_g as i64]);
    let mut scv: Vec<CellValue> = Vec::new();
    scv.push(CellValue::IntList(shape));
    cols.push(Column { name: String::from_str("Shape"), cells: scv });
    let ghost stem_g = stem@;
    let mut fcv: Vec<CellValue> = Vec::new();
    fcv.push(CellValue::Str(stem));
    cols.push(Column { name: String::from_str("File Name"), cells: fcv });
    let scan_cell = match scan {
        Some(v) => CellValue::Int(v),
        None => CellValue::Null,
    };
    let mut qcv: Vec<CellValue> = Vec::new();
    qcv.push(scan_cell);
    cols.push(Column { name: String::from_str("Scan ID"), cells: qcv });
    let t = Table { cols };
    let ghost expect = spec_record_table(hdr, kv, imgv, rows_g, cols_g, stem_g);
    proof {
        assert(t@.cols.len() == nk + 4);
        assert(expect.cols.len() == nk + 4);
        assert forall|j: int| 0 <= j < nk + 4 implies t@.cols[j] == expect.cols[j] by {
            if j < nk {
                assert(t@.cols[j] == cols@[j]@);
                assert(expect.cols[j] == (ColV {
                    name: kv[j],
                    cells: seq![or_null(header_lookup(hdr, kv[j]))],
                }));
            } else {
                assert(t@.cols[j] =~= expect.cols[j]);
            }
        }
        assert(t@.cols =~= expect.cols);
        assert(t@ =~= expect);
        // the row is well formed: every column one cell high, names distinct
        assert forall|k: int|
            0 <= k < t@.cols.len() implies (#[trigger] t@.cols[k].cells.len()) == 1 by {}
        assert(t@.height() == 1);
        reveal_strlit("Image");
        reveal_strlit("Shape");
        reveal_strlit("File Name");
        reveal_strlit("Scan ID");
        assert(t@.cols[nk as int].name == "Image"@);
        assert(t@.cols[nk + 1].name == "Shape"@);
        assert(t@.cols[nk + 2].name == "File Name"@);
        assert(t@.cols[nk + 3].name == "Scan ID"@);
        assert("Image"@.len() == 5 && "Shape"@.len() == 5 && "File Name"@.len() == 9
            && "Scan ID"@.len() == 7);
        assert("Image"@ != "Shape"@) by {
            if "Image"@ == "Shape"@ {
                assert("Image"@[0] == "Shape"@[0]);
                assert(false);
            }
        }
        assert("Image"@ != "File Name"@ && "Image"@ != "Scan ID"@ && "Shape"@ != "File Name"@
            && "Shape"@ != "Scan ID"@ && "File Name"@ != "Scan ID"@);
        assert forall|k1: int, k2: int|
            0 <= k1 < k2 < t@.cols.len() implies t@.cols[k1].name != t@.cols[k2].name by {
            if k2 < nk {
                assert(t@.cols[k1].name == kv[k1]);
                assert(t@.cols[k2].name == kv[k2]);
                assert(kv[k1] != kv[k2]);
            } else if k1 < nk {
                assert(t@.cols[k1].name == kv[k1]);
                assert(!spec_reserved(kv[k1]));
            }
        }
        assert(t@.wf());
    }
    Ok(t)
}

} // verus!
