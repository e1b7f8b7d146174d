use std::io::Read;

use vstd::prelude::*;

use zstd::dict::{DecoderDictionary, EncoderDictionary};

use crate::error::{Error, Result};

verus! {

/// `std::io::Error`, carried through unchanged.
#[verifier::external_type_specification]
#[verifier::external_body]
pub struct ExIoError(std::io::Error);

/// `zstd::dict::EncoderDictionary`, a digested dictionary for compression.
#[verifier::external_type_specification]
#[verifier::external_body]
pub struct ExEncoderDictionary<'a>(EncoderDictionary<'a>);

/// `zstd::dict::DecoderDictionary`, a digested dictionary for decompression.
#[verifier::external_type_specification]
#[verifier::external_body]
pub struct ExDecoderDictionary<'a>(DecoderDictionary<'a>);

/// The views of a list of byte vectors.
pub open spec fn views(v: Seq<Vec<u8>>) -> Seq<Seq<u8>> {
    v.map_values(|x: Vec<u8>| x@)
}

/// The Zstandard frame that `zstd::bulk::compress` makes of `data` at `level`; `None` where it
/// fails.
pub uninterp spec fn zstd_compressed(level: i32, data: Seq<u8>) -> Option<Seq<u8>>;

/// The Zstandard frame that a compressor seeded with the raw dictionary `dict` makes of `data`;
/// `None` where it fails.
pub uninterp spec fn zstd_compressed_with_dict(level: i32, dict: Seq<u8>, data: Seq<u8>) -> Option<
    Seq<u8>,
>;

/// What `zstd::stream::decode_all` recovers from `data`; `None` where it fails.
pub uninterp spec fn zstd_decoded(data: Seq<u8>) -> Option<Seq<u8>>;

/// What a decoder seeded with the raw dictionary `dict` recovers from `data`; `None` where it
/// fails.
pub uninterp spec fn zstd_decoded_with_dict(dict: Seq<u8>, data: Seq<u8>) -> Option<Seq<u8>>;

/// The dictionary that `zstd::dict::from_samples` trains on `samples`; `None` where training
/// fails.
pub uninterp spec fn trained_dictionary(samples: Seq<Seq<u8>>, max_size: usize) -> Option<Seq<u8>>;

/// Relies on `zstd::bulk::compress`: one frame of `data` at `level`, with the content size
/// recorded in the frame header; the bytes depend on the level and the data alone.
#[verifier::external_body]
fn compress_level(data: &[u8], level: i32) -> (r: std::io::Result<Vec<u8>>)
    ensures
        r matches Ok(out) ==> zstd_compressed(level, data@) == Some(out@),
        r is Err ==> zstd_compressed(level, data@) is None,
{
    zstd::bulk::compress(data, level)
}

/// Relies on `zstd::bulk::Compressor::with_dictionary` and its `compress`: one frame of `data`,
/// content size recorded, seeded with the raw dictionary `dict`.
#[verifier::external_body]
fn compress_with_dict(data: &[u8], level: i32, dict: &[u8]) -> (r: std::io::Result<Vec<u8>>)
    ensures
        r matches Ok(out) ==> zstd_compressed_with_dict(level, dict@, data@) == Some(out@),
        r is Err ==> zstd_compressed_with_dict(level, dict@, data@) is None,
{
    zstd::bulk::Compressor::with_dictionary(level, dict)?.compress(data)
}

/// Relies on `zstd::bulk::Compressor::with_prepared_dictionary` and its `compress`: one frame of
/// `data`, content size recorded, seeded with a digested dictionary.
#[verifier::external_body]
fn compress_prepared(data: &[u8], dict: &EncoderDictionary<'static>) -> (r: std::io::Result<
    Vec<u8>,
>) {
    zstd::bulk::Compressor::with_prepared_dictionary(dict)?.compress(data)
}

/// Relies on `zstd::stream::decode_all`: the concatenated contents of the frames in `data`.
#[verifier::external_body]
fn decompress_plain(data: &[u8]) -> (r: std::io::Result<Vec<u8>>)
    ensures
        r matches Ok(out) ==> zstd_decoded(data@) == Some(out@),
        r is Err ==> zstd_decoded(data@) is None,
{
    zstd::stream::decode_all(data)
}

/// Relies on `zstd::stream::read::Decoder::with_dictionary`, read to its end: the contents of the
/// frames in `data`, decoded with the raw dictionary `dict`.
#[verifier::external_body]
fn decompress_with_dict(data: &[u8], dict: &[u8]) -> (r: std::io::Result<Vec<u8>>)
    ensures
        r matches Ok(out) ==> zstd_decoded_with_dict(dict@, data@) == Some(out@),
        r is Err ==> zstd_decoded_with_dict(dict@, data@) is None,
{
    let mut out = Vec::new();
    zstd::stream::read::Decoder::with_dictionary(data, dict)?.read_to_end(&mut out)?;
    Ok(out)
}

/// Relies on `zstd::stream::read::Decoder::with_prepared_dictionary`, read to its end: the
/// contents of the frames in `data`, decoded with a digested dictionary.
#[verifier::external_body]
fn decompress_prepared(data: &[u8], dict: &DecoderDictionary<'static>) -> (r: std::io::Result<
    Vec<u8>,
>) {
    let mut out = Vec::new();
    zstd::stream::read::Decoder::with_prepared_dictionary(data, dict)?.read_to_end(&mut out)?;
    Ok(out)
}

/// Relies on `zstd::dict::from_samples`: a dictionary trained on `samples`, of at most
/// `max_size` bytes.
#[verifier::external_body]
pub(crate) fn train_from_samples(samples: &Vec<Vec<u8>>, max_size: usize) -> (r: std::io::Result<
    Vec<u8>,
>)
    ensures
        r matches Ok(d) ==> trained_dictionary(views(samples@), max_size) == Some(d@),
        r is Err ==> trained_dictionary(views(samples@), max_size) is None,
{
    zstd::dict::from_samples(samples, max_size)
}

/// Relies on `std::io::Error::from`: an error of kind `UnexpectedEof`, for input that ends early.
#[verifier::external_body]
pub(crate) fn unexpected_eof() -> (r: std::io::Error) {
    std::io::Error::from(std::io::ErrorKind::UnexpectedEof)
}

/// The dictionary choice, as the contracts see it.
pub enum DictChoice {
    NoDict,
    Raw(Seq<u8>),
    Prepared,
}

/// Which dictionary, if any, seeds the compression codec.
pub enum ZstdDict<'d, D> {
    /// No dictionary.
    NoDict,
    /// A raw dictionary, digested afresh on every use.
    Raw(Vec<u8>),
    /// A dictionary digested once, shared by reference.
    Prepared(&'d D),
}

impl<'d, D> View for ZstdDict<'d, D> {
    type V = DictChoice;

    open spec fn view(&self) -> DictChoice {
        match self {
            ZstdDict::NoDict => DictChoice::NoDict,
            ZstdDict::Raw(d) => DictChoice::Raw(d@),
            ZstdDict::Prepared(_) => DictChoice::Prepared,
        }
    }
}

impl<'d, D> ZstdDict<'d, D> {
    /// A second handle on the same dictionary.
    pub fn duplicate(&self) -> (r: Self)
        ensures
            r@ == self@,
    {
        match self {
            ZstdDict::NoDict => ZstdDict::NoDict,
            ZstdDict::Raw(d) => ZstdDict::Raw(d.clone()),
            ZstdDict::Prepared(p) => ZstdDict::Prepared(*p),
        }
    }
}

/// The compression settings: a level, and a dictionary for compression.
pub struct ZstdBuilder<'d> {
    pub level: i32,
    pub dict: ZstdDict<'d, EncoderDictionary<'static>>,
}

/// The frame that the settings make of `data`, where a dictionary in the open makes it a
/// function of its arguments: `None` where compression fails. A digested dictionary is opaque.
pub open spec fn encoding(level: i32, dict: DictChoice, data: Seq<u8>) -> Option<Seq<u8>> {
    match dict {
        DictChoice::NoDict => zstd_compressed(level, data),
        DictChoice::Raw(d) => zstd_compressed_with_dict(level, d, data),
        DictChoice::Prepared => None,
    }
}

/// What decoding `data` with the dictionary gives, where the dictionary is in the open: `None`
/// where decoding fails. A digested dictionary is opaque.
pub open spec fn decoding(dict: DictChoice, data: Seq<u8>) -> Option<Seq<u8>> {
    match dict {
        DictChoice::NoDict => zstd_decoded(data),
        DictChoice::Raw(d) => zstd_decoded_with_dict(d, data),
        DictChoice::Prepared => None,
    }
}

/// Whether `out` is a frame that the settings may make of `data`. With a digested dictionary any
/// frame qualifies.
pub open spec fn encodes_to(level: i32, dict: DictChoice, data: Seq<u8>, out: Seq<u8>) -> bool {
    dict is Prepared || encoding(level, dict, data) == Some(out)
}

/// Whether `out` is what decoding `data` with the dictionary may give. With a digested
/// dictionary any result qualifies.
pub open spec fn decodes_to(dict: DictChoice, data: Seq<u8>, out: Seq<u8>) -> bool {
    dict is Prepared || decoding(dict, data) == Some(out)
}

impl<'d> ZstdBuilder<'d> {
    /// A copy of the settings.
    pub fn duplicate(&self) -> (r: Self)
        ensures
            r.level == self.level,
            r.dict@ == self.dict@,
    {
        ZstdBuilder { level: self.level, dict: self.dict.duplicate() }
    }

    /// Compresses `data` into one independent frame that records its original size.
    pub fn encode(&self, data: &[u8]) -> (r: Result<Vec<u8>>)
        ensures
            r matches Ok(out) ==> encodes_to(self.level, self.dict@, data@, out@),
            r is Err ==> (r matches Err(Error::Io { .. })),
            !(self.dict@ is Prepared) ==> (r is Ok <==> encoding(self.level, self.dict@, data@) is Some),
    {
        let res = match &self.dict {
            ZstdDict::NoDict => compress_level(data, self.level),
            ZstdDict::Raw(d) => compress_with_dict(data, self.level, d.as_slice()),
            ZstdDict::Prepared(p) => compress_prepared(data, p),
        };
        match res {
            Ok(out) => Ok(out),
            Err(e) => Err(Error::Io { source: e }),
        }
    }
}

impl<'d> Default for ZstdBuilder<'d> {
    /// Level 3, without a dictionary.
    fn default() -> (r: Self)
        ensures
            r.level == 3,
            r.dict@ == DictChoice::NoDict,
    {
        ZstdBuilder { level: 3, dict: ZstdDict::NoDict }
    }
}

impl<'d, D> Default for ZstdDict<'d, D> {
    /// No dictionary.
    fn default() -> (r: Self)
        ensures
            r@ == DictChoice::NoDict,
    {
        ZstdDict::NoDict
    }
}

impl<'d> ZstdDict<'d, DecoderDictionary<'static>> {
    /// Decompresses every frame in `data`.
    pub fn decode(&self, data: &[u8]) -> (r: Result<Vec<u8>>)
        ensures
            r matches Ok(out) ==> decodes_to(self@, data@, out@),
            r is Err ==> (r matches Err(Error::Io { .. })),
            !(self@ is Prepared) ==> (r is Ok <==> decoding(self@, data@) is Some),
    {
        let res = match self {
            ZstdDict::NoDict => decompress_plain(data),
            ZstdDict::Raw(d) => decompress_with_dict(data, d.as_slice()),
            ZstdDict::Prepared(p) => decompress_prepared(data, p),
        };
        match res {
            Ok(out) => Ok(out),
            Err(e) => Err(Error::Io { source: e }),
        }
    }
}

} // verus!
