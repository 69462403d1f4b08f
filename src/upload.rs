//! From an input file and an optional hash to the save document to upload.
use vstd::prelude::*;
use vstd::string::StringExecFns;
use crate::desmos::{convert_png, decoded_raster, expression_for, input_check, ConvertError, Expression, Raster};
use crate::document::{
    calc_state_json, default_viewport, CalcState, SaveDocument, CALC_VERSION, VIEW_HALF,
};
use crate::hash::{generated_hash, graph_hash, hash_check, hex_prefix, random_seed, HashError, SEED_LEN};

verus! {

/// The base64 text (standard alphabet, padded) of `bytes`.
pub uninterp spec fn base64_of(bytes: Seq<u8>) -> Seq<char>;

/// Relies on `base64::Engine::encode` of the `STANDARD` engine: the text depends
/// on the bytes alone, four characters for each started group of three bytes.
#[verifier::external_body]
fn base64_standard(bytes: &[u8]) -> (r: String)
    ensures
        r@ == base64_of(bytes@),
        r@.len() == 4 * ((bytes@.len() + 2) / 3),
{
    base64::Engine::encode(&base64::engine::general_purpose::STANDARD, bytes)
}

pub open spec fn data_url_text(bytes: Seq<u8>) -> Seq<char> {
    "data:image/png;base64,"@ + base64_of(bytes)
}

/// The thumbnail: the image bytes as a base64 PNG data URL.
pub fn data_url(bytes: &[u8]) -> (r: String)
    ensures
        r@ == data_url_text(bytes@),
        r@.len() == "data:image/png;base64,"@.len() + 4 * ((bytes@.len() + 2) / 3),
{
    let mut s = String::from_str("data:image/png;base64,");
    let b = base64_standard(bytes);
    s.append(b.as_str());
    s
}

/// A calculator state of the current version with the fixed viewport.
pub fn new_calc_state(random_seed: String, expressions: Vec<Expression>) -> (c: CalcState)
    ensures
        c.version == CALC_VERSION,
        c.random_seed@ == random_seed@,
        c.viewport.xmin == -VIEW_HALF && c.viewport.xmax == VIEW_HALF,
        c.viewport.ymin == -VIEW_HALF && c.viewport.ymax == VIEW_HALF,
        c.expressions@ == expressions@,
{
    CalcState { version: CALC_VERSION, random_seed, viewport: default_viewport(), expressions }
}

/// A save document for a new graph: the state embedded as JSON text, both
/// flags false, language `en`.
pub fn build_document(state: &CalcState, thumb_data: String, graph_hash: String) -> (d: SaveDocument)
    ensures
        d@ == (thumb_data@, calc_state_json(state@), false, "en"@, false, graph_hash@),
{
    SaveDocument {
        thumb_data,
        calc_state: crate::document::encode_calc_state(state),
        is_update: false,
        lang: String::from_str("en"),
        my_graphs: false,
        graph_hash,
    }
}

/// Why no document is made.
#[derive(Debug, PartialEq, Eq, Structural, Clone, Copy)]
pub enum UploadError {
    /// The supplied graph hash is refused.
    Hash(HashError),
    /// The input file is refused or cannot be decoded.
    Convert(ConvertError),
}

/// `d` is the document for the image `bytes` under the graph hash `hash`.
pub open spec fn document_for(d: SaveDocument, bytes: Seq<u8>, hash: Seq<char>) -> bool {
    &&& d.thumb_data@ == data_url_text(bytes)
    &&& d.is_update == false && d.my_graphs == false && d.lang@ == "en"@
    &&& d.graph_hash@ == hash
    &&& exists|img: Raster, c: CalcState|
        img.wf() && decoded_raster(bytes) == Some((img.width, img.height, img.rgba@))
            && d.calc_state@ == calc_state_json(c@) && c.version == CALC_VERSION
            && c.viewport.xmin == -VIEW_HALF && c.viewport.xmax == VIEW_HALF
            && c.viewport.ymin == -VIEW_HALF && c.viewport.ymax == VIEW_HALF
            && (exists|n: u128| c.random_seed@ == hex_prefix(n, SEED_LEN as nat))
            && c.expressions@.len() == img.size()
            && forall|i: int| 0 <= i < c.expressions@.len() ==> expression_for(
                #[trigger] c.expressions@[i], &img, i)
}

/// The verdict on the supplied hash; none supplied passes.
pub open spec fn supplied_check(supplied_hash: Option<&str>) -> Result<(), HashError> {
    match supplied_hash {
        Some(h) => hash_check(h@),
        None => Ok(()),
    }
}

/// Checks the supplied hash, then the file's extension and size, then decodes
/// and converts the image and assembles the save document.
pub fn prepare_upload(extension: &str, size: u64, bytes: &[u8], supplied_hash: Option<&str>) -> (r: Result<SaveDocument, UploadError>)
    ensures
        supplied_check(supplied_hash) matches Err(e) ==> r == Err::<SaveDocument, UploadError>(
            UploadError::Hash(e)),
        supplied_check(supplied_hash) is Ok ==> (input_check(extension@, size) matches Err(e) ==> r
            == Err::<SaveDocument, UploadError>(UploadError::Convert(e))),
        supplied_check(supplied_hash) is Ok && input_check(extension@, size) is Ok ==> (r is Ok
            <==> decoded_raster(bytes@) is Some),
        supplied_check(supplied_hash) is Ok && input_check(extension@, size) is Ok && r is Err ==> r
            == Err::<SaveDocument, UploadError>(UploadError::Convert(ConvertError::Decode)),
        r matches Ok(d) ==> match supplied_hash {
            Some(h) => document_for(d, bytes@, h@),
            None => exists|n: u128| document_for(d, bytes@, generated_hash(n)),
        },
{
    let hash = match graph_hash(supplied_hash) {
        Ok(h) => h,
        Err(e) => return Err(UploadError::Hash(e)),
    };
    let expressions = match convert_png(extension, size, bytes) {
        Ok(v) => v,
        Err(e) => return Err(UploadError::Convert(e)),
    };
    let seed = random_seed();
    let state = new_calc_state(seed, expressions);
    let thumb = data_url(bytes);
    let d = build_document(&state, thumb, hash);
    proof {
        let img = choose|img: Raster|
            img.wf() && decoded_raster(bytes@) == Some((img.width, img.height, img.rgba@))
                && expressions@.len() == img.size() && forall|i: int|
                0 <= i < expressions@.len() ==> expression_for(#[trigger] expressions@[i], &img, i);
        assert(state.expressions@ == expressions@);
        assert(d.calc_state@ == calc_state_json(state@));
    }
    Ok(d)
}

} // verus!
