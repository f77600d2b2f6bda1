//! Shader source text, validated as WGSL before it may reach the GPU layer.
use vstd::prelude::*;

use crate::arena::AssetKey;
use vstd::string::StringSliceAdditionalSpecFns;

verus! {

/// Whether naga accepts the text as a valid WGSL module: parsing it and
/// validating the parsed module both succeed. A function of the text alone.
pub uninterp spec fn wgsl_validates(src: Seq<char>) -> bool;

/// Relies on `naga::front::wgsl::parse_str` and `naga::valid::Validator` (all
/// flags, all capabilities): whether a module parses and validates is a
/// function of the source text alone; the error carries naga's rendering of
/// what went wrong.
#[verifier::external_body]
fn validate_wgsl(src: &str) -> (r: Result<(), String>)
    ensures
        r is Ok <==> wgsl_validates(src@),
{
    match naga::front::wgsl::parse_str(src) {
        Err(parse_error) => Err(parse_error.emit_to_string(src)),
        Ok(module) => {
            let mut validator = naga::valid::Validator::new(
                naga::valid::ValidationFlags::all(),
                naga::valid::Capabilities::all(),
            );
            match validator.validate(&module) {
                Err(validation_error) => Err(validation_error.emit_to_string(src)),
                Ok(_) => Ok(()),
            }
        },
    }
}

/// A piece of shader source text.
#[derive(Debug, Clone)]
pub struct ShaderSource {
    pub src: String,
}

impl ShaderSource {
    /// Wraps the given text.
    pub fn new(src: String) -> (s: ShaderSource)
        ensures
            s.src == src,
    {
        ShaderSource { src }
    }

    /// The placeholder shown until a real source is loaded: the empty text.
    pub fn new_placeholder() -> (s: ShaderSource)
        ensures
            s.src@ == Seq::<char>::empty(),
    {
        ShaderSource { src: String::new() }
    }

    /// The text.
    pub fn source(&self) -> (r: &str)
        ensures
            r@ == self.src@,
    {
        self.src.as_str()
    }

    /// Checks that the text is a valid WGSL module; the error is naga's
    /// rendering of the failure.
    pub fn validate(&self) -> (r: Result<(), String>)
        ensures
            r is Ok <==> wgsl_validates(self.src@),
    {
        validate_wgsl(self.src.as_str())
    }
}

impl AssetKey for ShaderSource {
    open spec fn type_key_spec() -> u64 {
        2
    }

    fn type_key() -> u64 {
        2
    }
}

} // verus!

verus! {

/// Relies on `String::from_utf8`: it succeeds exactly on valid UTF-8 and the
/// resulting string's bytes are the input bytes.
#[verifier::external_body]
fn bytes_to_string(bytes: Vec<u8>) -> (r: Option<String>)
    ensures
        r is Some <==> vstd::utf8::valid_utf8(bytes@),
        r matches Some(s) ==> vstd::utf8::encode_utf8(s@) == bytes@,
{
    match String::from_utf8(bytes) {
        Ok(s) => Some(s),
        Err(_) => None,
    }
}

/// Builds shader sources: preprocesses raw text with a fixed define list and
/// validates the result as WGSL. The loader runs synchronously, so an invalid
/// shader fails its load before anything uses the handle.
#[derive(Debug)]
pub struct ShaderSourceLoader {
    pub defines: Vec<Vec<u8>>,
}

impl ShaderSourceLoader {
    /// A loader whose defines are the comma-separated pieces of `options`,
    /// each trimmed.
    pub fn new(options: &str) -> (l: ShaderSourceLoader)
        ensures
            crate::preprocessor::line_views(l.defines@) == crate::preprocessor::trimmed_views(
                crate::preprocessor::split_on_spec(options.spec_bytes(), 44),
            ),
    {
        ShaderSourceLoader { defines: crate::preprocessor::split_and_trim(options.as_bytes(), 44) }
    }

    /// Preprocesses and validates raw shader text: succeeds exactly when the
    /// preprocessor succeeds, its joined output is valid text, and naga
    /// accepts that text, in which case the result holds exactly that text.
    pub fn load_from_source(&self, text: &str) -> (r: Result<ShaderSource, String>)
        ensures
            r is Ok <==> match crate::preprocessor::preprocess_spec(
                crate::preprocessor::split_lines_spec(text.spec_bytes()),
                crate::preprocessor::line_views(self.defines@),
                0,
                false,
                0,
            ) {
                Some(pr) => vstd::utf8::valid_utf8(crate::preprocessor::join_lines_spec(pr.0))
                    && wgsl_validates(
                    vstd::utf8::decode_utf8(crate::preprocessor::join_lines_spec(pr.0)),
                ),
                None => false,
            },
            r matches Ok(s) ==> {
                &&& crate::preprocessor::preprocess_spec(
                    crate::preprocessor::split_lines_spec(text.spec_bytes()),
                    crate::preprocessor::line_views(self.defines@),
                    0,
                    false,
                    0,
                ) matches Some(pr) && vstd::utf8::encode_utf8(s.src@)
                    == crate::preprocessor::join_lines_spec(pr.0) && s.src@
                    == vstd::utf8::decode_utf8(crate::preprocessor::join_lines_spec(pr.0))
                &&& wgsl_validates(s.src@)
            },
    {
        let mut pp = crate::preprocessor::Preprocessor::new(text).with_defines(
            clone_byte_lines(&self.defines),
        );
        match pp.preprocess() {
            Ok(_) => {},
            Err(e) => {
                return Err(e);
            },
        }
        let bytes = pp.source();
        match bytes_to_string(bytes) {
            Some(src) => {
                proof {
                    vstd::utf8::encode_utf8_decode_utf8(src@);
                }
                let source = ShaderSource::new(src);
                match source.validate() {
                    Ok(_) => Ok(source),
                    Err(e) => Err(e),
                }
            },
            None => Err("preprocessed shader source is not valid text".to_owned()),
        }
    }
}

fn clone_byte_lines(v: &Vec<Vec<u8>>) -> (r: Vec<Vec<u8>>)
    ensures
        crate::preprocessor::line_views(r@) == crate::preprocessor::line_views(v@),
{
    let mut r: Vec<Vec<u8>> = Vec::new();
    let n = v.len();
    for i in 0..n
        invariant
            n == v@.len(),
            r@.len() == i,
            forall|j: int|
                0 <= j < i ==> crate::preprocessor::line_views(r@)[j]
                    == crate::preprocessor::line_views(v@)[j],
    {
        let ghost r_old = r@;
        r.push(clone_one(&v[i]));
        proof {
            assert forall|j: int|
                0 <= j < i + 1 implies crate::preprocessor::line_views(r@)[j]
                == crate::preprocessor::line_views(v@)[j] by {
                if j < i {
                    assert(r@[j] == r_old[j]);
                    assert(crate::preprocessor::line_views(r_old)[j]
                        == crate::preprocessor::line_views(v@)[j]);
                }
            }
        }
    }
    proof {
        assert(crate::preprocessor::line_views(r@) =~= crate::preprocessor::line_views(v@));
    }
    r
}

fn clone_one(v: &Vec<u8>) -> (r: Vec<u8>)
    ensures
        r@ == v@,
{
    let mut r: Vec<u8> = Vec::new();
    let n = v.len();
    for i in 0..n
        invariant
            n == v@.len(),
            r@ =~= v@.subrange(0, i as int),
    {
        r.push(v[i]);
    }
    proof {
        assert(r@ =~= v@);
    }
    r
}

} // verus!
