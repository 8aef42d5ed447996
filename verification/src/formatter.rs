use vstd::prelude::*;
use vstd::string::StringSliceAdditionalSpecFns;
use vstd::utf8::{decode_utf8, valid_utf8};

use crate::config::SvgoConfig;
use crate::entries::{last_value, lemma_insert_all_get, map_get, map_insert_all};
use crate::error::{ErrorModel, SvgoError};
use crate::json::{lemma_entries_model, model_as_object, JsonMap, JsonModel};
use crate::structure::{structure_check, validate_svg_structure};
use crate::config::{char_range, lemma_last_index_of};
use crate::text::{
    ascii_lower, chars_eq_ignore_ascii_case, chars_of, eq_ignore_ascii_case, last_index_of, lowercase_text, rfind_char,
    string_of, to_lowercase,
};

verus! {

/// Seconds that one format may take.
pub const FORMAT_TIMEOUT_SECS: u64 = 30;

/// Whether `c` separates the components of a path on a platform whose
/// separator is `separator`: `/` always does, and so does `separator`.
pub open spec fn is_separator(c: char, separator: char) -> bool {
    c == '/' || c == separator
}

/// The text of `p` after its last separator.
pub open spec fn last_component(p: Seq<char>, separator: char) -> Seq<char>
    decreases p.len(),
{
    if p.len() == 0 || is_separator(p.last(), separator) {
        Seq::empty()
    } else {
        last_component(p.drop_last(), separator).push(p.last())
    }
}

/// The last component is no longer than the path, and not empty when the
/// path ends in something other than a separator.
pub proof fn lemma_last_component_len(p: Seq<char>, separator: char)
    ensures
        last_component(p, separator).len() <= p.len(),
        p.len() > 0 && !is_separator(p.last(), separator) ==> last_component(p, separator).len() >= 1,
    decreases p.len(),
{
    if p.len() > 0 && !is_separator(p.last(), separator) {
        lemma_last_component_len(p.drop_last(), separator);
    }
}

/// The file name of the path `p`: its last component, passing over trailing
/// separators and `.` components; none when that component is `..` or the
/// path has no component left.
pub open spec fn file_name_of(p: Seq<char>, separator: char) -> Option<Seq<char>>
    decreases p.len(),
{
    if p.len() == 0 {
        None
    } else if is_separator(p.last(), separator) {
        file_name_of(p.drop_last(), separator)
    } else {
        let name = last_component(p, separator);
        proof {
            lemma_last_component_len(p, separator);
        }
        if name == "."@ {
            file_name_of(p.subrange(0, p.len() - name.len()), separator)
        } else if name == ".."@ {
            None
        } else {
            Some(name)
        }
    }
}

/// The extension of the path `p`: the text after the last `.` of its file
/// name; none without a file name, without a `.`, or when the only `.` starts
/// the name.
pub open spec fn extension_of(p: Seq<char>, separator: char) -> Option<Seq<char>> {
    match file_name_of(p, separator) {
        None => None,
        Some(name) => match last_index_of(name, '.') {
            None => None,
            Some(i) => if i > 0 {
                Some(name.subrange(i + 1, name.len() as int))
            } else {
                None
            },
        },
    }
}

proof fn lemma_last_component_from(p: Seq<char>, separator: char, start: int)
    requires
        0 <= start <= p.len(),
        start == 0 || is_separator(p[start - 1], separator),
        forall|j: int| start <= j < p.len() ==> !is_separator(#[trigger] p[j], separator),
    ensures
        last_component(p, separator) == p.subrange(start, p.len() as int),
    decreases p.len(),
{
    if p.len() > start {
        let q = p.drop_last();
        assert forall|j: int| start <= j < q.len() implies !is_separator(#[trigger] q[j], separator) by {
            assert(q[j] == p[j]);
        }
        if start > 0 {
            assert(q[start - 1] == p[start - 1]);
        }
        lemma_last_component_from(q, separator, start);
        assert(p.subrange(start, p.len() as int) =~= q.subrange(start, q.len() as int).push(p.last()));
    } else {
        assert(p.subrange(start, p.len() as int) =~= Seq::<char>::empty());
    }
}

/// The extension of `path` on a platform whose separator is `separator`, as
/// `extension_of` gives it.
pub fn path_extension(path: &str, separator: char) -> (r: Option<String>)
    ensures
        match r {
            Some(e) => extension_of(path@, separator) == Some(e@),
            None => extension_of(path@, separator) is None,
        },
{
    proof {
        reveal_strlit(".");
        reveal_strlit("..");
    }
    let cs = chars_of(path);
    let ghost p = cs@;
    let mut end: usize = cs.len();
    assert(p.subrange(0, end as int) =~= p);
    let mut found: Option<(usize, usize)> = None;
    loop
        invariant_except_break
            end <= cs.len(),
            file_name_of(p, separator) == file_name_of(p.subrange(0, end as int), separator),
            found is None,
        invariant
            p == cs@,
        ensures
            match found {
                Some((a, b)) => a < b <= cs.len() && file_name_of(p, separator) == Some(
                    p.subrange(a as int, b as int),
                ),
                None => file_name_of(p, separator) is None,
            },
        decreases end,
    {
        if end == 0 {
            break;
        }
        let ghost q = p.subrange(0, end as int);
        let c = cs[end - 1];
        if c == '/' || c == separator {
            end = end - 1;
            assert(q.drop_last() =~= p.subrange(0, end as int));
        } else {
            let mut start: usize = end - 1;
            while start > 0 && !(cs[start - 1] == '/' || cs[start - 1] == separator)
                invariant
                    p == cs@,
                    start < end <= cs.len(),
                    forall|j: int| start <= j < end ==> !is_separator(#[trigger] p[j], separator),
                decreases start,
            {
                start = start - 1;
            }
            proof {
                reveal_strlit(".");
                reveal_strlit("..");
                assert forall|j: int| start <= j < q.len() implies !is_separator(#[trigger] q[j], separator) by {
                    assert(q[j] == p[j]);
                }
                if start > 0 {
                    assert(q[start - 1] == p[start - 1]);
                }
                lemma_last_component_from(q, separator, start as int);
                assert(q.subrange(start as int, q.len() as int) =~= p.subrange(start as int, end as int));
                assert(q.subrange(0, start as int) =~= p.subrange(0, start as int));
                lemma_last_component_len(q, separator);
            }
            let ghost name = p.subrange(start as int, end as int);
            if end - start == 1 && cs[start] == '.' {
                assert(name =~= "."@);
                end = start;
            } else if end - start == 2 && cs[start] == '.' && cs[start + 1] == '.' {
                assert(name =~= ".."@);
                break;
            } else {
                assert(name != "."@) by {
                    if name == "."@ {
                        assert(name.len() == 1 && name[0] == '.');
                    }
                }
                assert(name != ".."@) by {
                    if name == ".."@ {
                        assert(name.len() == 2 && name[0] == '.' && name[1] == '.');
                    }
                }
                found = Some((start, end));
                break;
            }
        }
    }
    match found {
        None => None,
        Some((a, b)) => {
            let name = vstd::slice::slice_to_vec(vstd::slice::slice_subrange(cs.as_slice(), a, b));
            proof {
                lemma_last_index_of(name@, '.');
            }
            match rfind_char(name.as_slice(), '.') {
                None => None,
                Some(i) => if i > 0 {
                    Some(char_range(&name, i + 1, name.len()))
                } else {
                    None
                },
            }
        },
    }
}

/// The kind of SVG file: plain text, or gzip-compressed (`.svgz`).
#[derive(Debug, Clone, Copy, PartialEq, Eq)]
pub enum SvgFileKind {
    Svg,
    Svgz,
}

/// What `String::from_utf8` says of bytes that are not UTF-8.
pub uninterp spec fn utf8_error_text(bytes: Seq<u8>) -> Seq<char>;

/// What reading the gzip member in `data` to its end with flate2's
/// `GzDecoder` gives: the decompressed bytes or the description of the error.
pub uninterp spec fn gunzip_outcome(data: Seq<u8>) -> Result<Seq<u8>, Seq<char>>;

/// What compressing `data` with flate2's `GzEncoder` at the default level
/// gives: the gzip bytes or the description of the error.
pub uninterp spec fn gzip_outcome(data: Seq<u8>) -> Result<Seq<u8>, Seq<char>>;

/// Calls `String::from_utf8`: it accepts exactly valid UTF-8.
#[verifier::external_body]
fn string_from_utf8(bytes: Vec<u8>) -> (r: Result<String, String>)
    ensures
        match r {
            Ok(s) => valid_utf8(bytes@) && s@ == decode_utf8(bytes@),
            Err(m) => !valid_utf8(bytes@) && m@ == utf8_error_text(bytes@),
        },
{
    String::from_utf8(bytes).map_err(|e| e.to_string())
}

/// Calls flate2's `GzDecoder::read_to_end` on `data`.
#[verifier::external_body]
fn gunzip(data: &[u8]) -> (r: Result<Vec<u8>, String>)
    ensures
        match r {
            Ok(v) => gunzip_outcome(data@) == Ok::<Seq<u8>, Seq<char>>(v@),
            Err(m) => gunzip_outcome(data@) == Err::<Seq<u8>, Seq<char>>(m@),
        },
{
    let mut decoded = Vec::new();
    std::io::Read::read_to_end(&mut flate2::read::GzDecoder::new(data), &mut decoded)
        .map(|_| decoded)
        .map_err(|e| e.to_string())
}

/// Calls flate2's `GzEncoder::write_all` and `finish` on `data`. The gzip
/// member it gives decompresses back to `data` with `GzDecoder`, as flate2's
/// own round-trip tests of these two types check.
#[verifier::external_body]
fn gzip(data: &[u8]) -> (r: Result<Vec<u8>, String>)
    ensures
        match r {
            Ok(v) => gzip_outcome(data@) == Ok::<Seq<u8>, Seq<char>>(v@) && gunzip_outcome(v@) == Ok::<
                Seq<u8>,
                Seq<char>,
            >(data@),
            Err(m) => gzip_outcome(data@) == Err::<Seq<u8>, Seq<char>>(m@),
        },
{
    let mut encoder = flate2::write::GzEncoder::new(Vec::new(), flate2::Compression::default());
    std::io::Write::write_all(&mut encoder, data)
        .and_then(|_| encoder.finish())
        .map_err(|e| e.to_string())
}

/// Returns `std::path::MAIN_SEPARATOR`, which is `/` or `\`.
#[verifier::external_body]
pub(crate) fn main_separator() -> (r: char)
    ensures
        r == '/' || r == '\\',
{
    std::path::MAIN_SEPARATOR
}

/// The kind of file that a path with this extension holds.
pub open spec fn file_kind_of(path: Seq<char>, separator: char) -> SvgFileKind {
    match extension_of(path, separator) {
        Some(e) => if eq_ignore_ascii_case(e, "svgz"@) {
            SvgFileKind::Svgz
        } else {
            SvgFileKind::Svg
        },
        None => SvgFileKind::Svg,
    }
}

/// The kind of SVG file at `path`: `.svgz` (in any ASCII case) is compressed,
/// anything else is plain.
pub fn svg_file_kind(path: &str, separator: char) -> (r: SvgFileKind)
    ensures
        r == file_kind_of(path@, separator),
{
    match path_extension(path, separator) {
        Some(e) => {
            let ec = chars_of(e.as_str());
            let svgz = chars_of("svgz");
            if chars_eq_ignore_ascii_case(ec.as_slice(), svgz.as_slice()) {
                SvgFileKind::Svgz
            } else {
                SvgFileKind::Svg
            }
        },
        None => SvgFileKind::Svg,
    }
}

/// The text of a file's bytes: UTF-8 for a plain file, UTF-8 after gzip
/// decompression for a compressed one.
pub open spec fn decoded_text(bytes: Seq<u8>, kind: SvgFileKind) -> Result<Seq<char>, ErrorModel> {
    let raw: Result<Seq<u8>, ErrorModel> = match kind {
        SvgFileKind::Svg => Ok(bytes),
        SvgFileKind::Svgz => match gunzip_outcome(bytes) {
            Ok(v) => Ok(v),
            Err(m) => Err(ErrorModel::SvgzDecompression(m)),
        },
    };
    match raw {
        Ok(b) => if valid_utf8(b) {
            Ok(decode_utf8(b))
        } else {
            Err(ErrorModel::InvalidUtf8(utf8_error_text(b)))
        },
        Err(e) => Err(e),
    }
}

/// The model of a result that carries a string.
pub open spec fn text_result(r: Result<String, SvgoError>) -> Result<Seq<char>, ErrorModel> {
    match r {
        Ok(s) => Ok(s@),
        Err(e) => Err(e@),
    }
}

/// Decodes the bytes of a file of the given kind to its text.
pub fn decode_svg_bytes(bytes: Vec<u8>, kind: SvgFileKind) -> (r: Result<String, SvgoError>)
    ensures
        text_result(r) == decoded_text(bytes@, kind),
{
    match kind {
        SvgFileKind::Svg => match string_from_utf8(bytes) {
            Ok(s) => Ok(s),
            Err(m) => Err(SvgoError::InvalidUtf8(m)),
        },
        SvgFileKind::Svgz => match gunzip(bytes.as_slice()) {
            Ok(decoded) => match string_from_utf8(decoded) {
                Ok(s) => Ok(s),
                Err(m) => Err(SvgoError::InvalidUtf8(m)),
            },
            Err(m) => Err(SvgoError::SvgzDecompression(m)),
        },
    }
}

/// The bytes that a file of the given kind holds for `text`.
pub open spec fn encoded_bytes(text: Seq<char>, kind: SvgFileKind) -> Result<Seq<u8>, ErrorModel> {
    match kind {
        SvgFileKind::Svg => Ok(vstd::utf8::encode_utf8(text)),
        SvgFileKind::Svgz => match gzip_outcome(vstd::utf8::encode_utf8(text)) {
            Ok(v) => Ok(v),
            Err(m) => Err(ErrorModel::SvgzCompression(m)),
        },
    }
}

/// The model of a result that carries bytes.
pub open spec fn bytes_result(r: Result<Vec<u8>, SvgoError>) -> Result<Seq<u8>, ErrorModel> {
    match r {
        Ok(v) => Ok(v@),
        Err(e) => Err(e@),
    }
}

/// Encodes formatted text as the bytes of a file of the given kind.
/// Whatever bytes it gives decode back to `text` as a file of the same kind.
pub fn encode_svg_bytes(text: String, kind: SvgFileKind) -> (r: Result<Vec<u8>, SvgoError>)
    ensures
        bytes_result(r) == encoded_bytes(text@, kind),
        r matches Ok(v) ==> decoded_text(v@, kind) == Ok::<Seq<char>, ErrorModel>(text@),
{
    proof {
        vstd::utf8::encode_utf8_valid_utf8(text@);
        vstd::utf8::encode_utf8_decode_utf8(text@);
    }
    let bytes = vstd::slice::slice_to_vec(text.as_str().as_bytes());
    match kind {
        SvgFileKind::Svg => Ok(bytes),
        SvgFileKind::Svgz => match gzip(bytes.as_slice()) {
            Ok(v) => Ok(v),
            Err(m) => Err(SvgoError::SvgzCompression(m)),
        },
    }
}

/// The options used for the file at `path`: the main options, with the
/// override of the file's lower-cased extension laid over them. An override
/// that is not an object is an error.
pub open spec fn file_config(
    path: Seq<char>,
    separator: char,
    main: Seq<(Seq<char>, JsonModel)>,
    overrides: Seq<(Seq<char>, JsonModel)>,
) -> Result<Seq<(Seq<char>, JsonModel)>, ErrorModel> {
    match extension_of(path, separator) {
        None => Ok(main),
        Some(e) => {
            let ext = lowercase_text(e);
            match map_get(overrides, ext) {
                None => Ok(main),
                Some(o) => match model_as_object(o) {
                    Some(es) => Ok(map_insert_all(main, es)),
                    None => Err(ErrorModel::InvalidExtensionOverride(ext)),
                },
            }
        },
    }
}

/// The model of a result that carries an object.
pub open spec fn map_result(r: Result<JsonMap, SvgoError>) -> Result<Seq<(Seq<char>, JsonModel)>, ErrorModel> {
    match r {
        Ok(m) => Ok(m@),
        Err(e) => Err(e@),
    }
}

/// The options used for the file at `file_path`.
pub fn resolve_file_config(file_path: &str, separator: char, config: &SvgoConfig) -> (r: Result<
    JsonMap,
    SvgoError,
>)
    ensures
        map_result(r) == file_config(file_path@, separator, config.main@, config.extension_overrides@),
{
    let ext = match path_extension(file_path, separator) {
        Some(e) => to_lowercase(e.as_str()),
        None => return Ok(config.main.deep_clone()),
    };
    match config.extension_overrides.get(ext.as_str()) {
        None => Ok(config.main.deep_clone()),
        Some(o) => match o.as_object() {
            None => Err(SvgoError::InvalidExtensionOverride(ext)),
            Some(over) => {
                let mut merged = config.main.deep_clone();
                let ghost base = merged@;
                let ghost es = over@;
                proof {
                    lemma_entries_model(over.entries@);
                    assert(es.take(0) =~= Seq::<(Seq<char>, JsonModel)>::empty());
                }
                let mut i: usize = 0;
                while i < over.entries.len()
                    invariant
                        i <= over.entries.len(),
                        es == over@,
                        es.len() == over.entries@.len(),
                        forall|j: int|
                            0 <= j < over.entries@.len() ==> #[trigger] es[j] == (
                                over.entries@[j].0@,
                                over.entries@[j].1@,
                            ),
                        merged@ == map_insert_all(base, es.take(i as int)),
                    decreases over.entries.len() - i,
                {
                    let ghost prev = es.take(i as int);
                    let ghost next = es.take(i + 1);
                    assert(next.drop_last() =~= prev);
                    let k = over.entries[i].0.clone();
                    let v = over.entries[i].1.deep_clone();
                    merged.insert(k, v);
                    i = i + 1;
                }
                proof {
                    assert(es.take(es.len() as int) =~= es);
                }
                Ok(merged)
            },
        },
    }
}

/// The path with every `\` turned into `/`.
pub open spec fn forward_slashes(path: Seq<char>) -> Seq<char> {
    path.map_values(|c: char| if c == '\\' { '/' } else { c })
}

/// The path as it is written to JSON on a platform whose separator is
/// `separator`: with forward slashes when the separator is `\`, unchanged
/// otherwise.
pub open spec fn json_path(path: Seq<char>, separator: char) -> Seq<char> {
    if separator == '\\' {
        forward_slashes(path)
    } else {
        path
    }
}

/// Writes a path with forward slashes when the platform separator is `\`.
pub fn normalize_path_with_separator(path: &str, separator: char) -> (r: String)
    ensures
        r@ == json_path(path@, separator),
{
    if separator == '\\' {
        let cs = chars_of(path);
        let mut out: Vec<char> = Vec::new();
        let mut i: usize = 0;
        while i < cs.len()
            invariant
                i <= cs.len(),
                cs@ == path@,
                out@ == forward_slashes(cs@.take(i as int)),
            decreases cs.len() - i,
        {
            let c = cs[i];
            out.push(if c == '\\' { '/' } else { c });
            i = i + 1;
            assert(out@ =~= forward_slashes(cs@.take(i as int)));
        }
        assert(cs@.take(cs@.len() as int) =~= cs@);
        string_of(out.as_slice())
    } else {
        path.to_owned()
    }
}

/// Normalizes a file path for JSON: forward slashes on platforms that
/// separate with `\`, the path unchanged elsewhere.
pub fn normalize_path_for_json(path: &str) -> (r: String)
    ensures
        r@ == json_path(path@, '/') || r@ == json_path(path@, '\\'),
{
    normalize_path_with_separator(path, main_separator())
}

/// What formatting a file needs from the library: the kind of the file, its
/// path as written to JSON, its text, and the options for it.
#[derive(Debug)]
pub struct FormatJob {
    pub file_kind: SvgFileKind,
    pub file_path: String,
    pub file_text: String,
    pub config: JsonMap,
}

/// Prepares a format of the file at `file_path` (as written to JSON on a
/// platform with separator `separator`) with content `file_bytes`: decodes
/// it, checks its structure, and picks its options.
pub fn prepare_format(
    file_path: &str,
    separator: char,
    file_bytes: Vec<u8>,
    config: &SvgoConfig,
) -> (r: Result<FormatJob, SvgoError>)
    ensures
        match decoded_text(file_bytes@, file_kind_of(file_path@, separator)) {
            Err(e) => r matches Err(x) && x@ == e,
            Ok(text) => match structure_check(vstd::utf8::encode_utf8(text)) {
                Err(e) => r matches Err(x) && x@ == e,
                Ok(_) => {
                    let path = json_path(file_path@, separator);
                    match file_config(path, separator, config.main@, config.extension_overrides@) {
                        Err(e) => r matches Err(x) && x@ == e,
                        Ok(options) => r matches Ok(job) && job.file_kind == file_kind_of(file_path@, separator)
                            && job.file_path@ == path && job.file_text@ == text && job.config@
                            == options,
                    }
                },
            },
        },
{
    let file_kind = svg_file_kind(file_path, separator);
    let file_text = match decode_svg_bytes(file_bytes, file_kind) {
        Ok(t) => t,
        Err(e) => return Err(e),
    };
    match validate_svg_structure(file_text.as_str()) {
        Ok(()) => {},
        Err(e) => return Err(e),
    }
    let path = normalize_path_with_separator(file_path, separator);
    let options = match resolve_file_config(path.as_str(), separator, config) {
        Ok(o) => o,
        Err(e) => return Err(e),
    };
    Ok(FormatJob { file_kind, file_path: path, file_text, config: options })
}

/// The model of the result of a finished format.
pub open spec fn finished_result(r: Result<Option<Vec<u8>>, SvgoError>) -> Result<Option<Seq<u8>>, ErrorModel> {
    match r {
        Ok(Some(v)) => Ok(Some(v@)),
        Ok(None) => Ok(None),
        Err(e) => Err(e@),
    }
}

/// Turns the formatter's answer into the bytes of the file: no answer means
/// no change; a text is encoded for the file's kind.
pub fn finish_format(result: Option<String>, kind: SvgFileKind) -> (r: Result<Option<Vec<u8>>, SvgoError>)
    ensures
        finished_result(r) == match result {
            None => Ok::<Option<Seq<u8>>, ErrorModel>(None),
            Some(t) => match encoded_bytes(t@, kind) {
                Ok(b) => Ok(Some(b)),
                Err(e) => Err(e),
            },
        },
{
    match result {
        Some(text) => match encode_svg_bytes(text, kind) {
            Ok(b) => Ok(Some(b)),
            Err(e) => Err(e),
        },
        None => Ok(None),
    }
}

} // verus!

verus! {

/// A plain file round-trips: the bytes written for a text decode back to
/// that text.
pub proof fn lemma_plain_round_trip(text: Seq<char>)
    ensures
        encoded_bytes(text, SvgFileKind::Svg) matches Ok(b) && decoded_text(b, SvgFileKind::Svg) == Ok::<
            Seq<char>,
            ErrorModel,
        >(text),
{
    vstd::utf8::encode_utf8_valid_utf8(text);
    vstd::utf8::encode_utf8_decode_utf8(text);
}

/// A file whose extension is `svgz`, in any ASCII case, is compressed; one
/// whose extension is `svg`, or that has none, is plain.
pub proof fn lemma_svgz_files(path: Seq<char>, separator: char)
    ensures
        extension_of(path, separator) == Some("svgz"@) ==> file_kind_of(path, separator) == SvgFileKind::Svgz,
        extension_of(path, separator) == Some("SVGZ"@) ==> file_kind_of(path, separator) == SvgFileKind::Svgz,
        extension_of(path, separator) == Some("svg"@) ==> file_kind_of(path, separator) == SvgFileKind::Svg,
        extension_of(path, separator) is None ==> file_kind_of(path, separator) == SvgFileKind::Svg,
{
    reveal_strlit("svgz");
    reveal_strlit("SVGZ");
    reveal_strlit("svg");
    let upper = "SVGZ"@;
    let lower = "svgz"@;
    assert forall|i: int| 0 <= i < 4 implies ascii_lower(#[trigger] upper[i]) == ascii_lower(lower[i]) by {
        assert(upper[i] as u32 + 32 == lower[i] as u32);
    }
    assert(ascii_lower(lower[0]) == lower[0]);
    assert("svg"@.len() != "svgz"@.len());
}

/// A path written for JSON holds no `\` where the separator is `\`, and
/// writing it again changes nothing.
pub proof fn lemma_json_path_stable(path: Seq<char>, separator: char)
    ensures
        json_path(json_path(path, separator), separator) == json_path(path, separator),
        separator == '\\' ==> !json_path(path, separator).contains('\\'),
        json_path(path, separator).len() == path.len(),
{
    let once = json_path(path, separator);
    if separator == '\\' {
        assert(json_path(once, separator) =~= once);
        if once.contains('\\') {
            let i = choose|i: int| 0 <= i < once.len() && once[i] == '\\';
            assert(once[i] == (if path[i] == '\\' { '/' } else { path[i] }));
        }
    }
}

/// An extension override wins: for a file whose lower-cased extension has
/// an override object, each key of that object takes the override's last
/// value; every other key keeps the main option.
pub proof fn lemma_override_wins(
    path: Seq<char>,
    separator: char,
    main: Seq<(Seq<char>, JsonModel)>,
    overrides: Seq<(Seq<char>, JsonModel)>,
    key: Seq<char>,
)
    ensures
        file_config(path, separator, main, overrides) matches Ok(options) ==> match extension_of(path, separator) {
            Some(e) => match map_get(overrides, lowercase_text(e)) {
                Some(o) => match model_as_object(o) {
                    Some(es) => map_get(options, key) == match last_value(es, key) {
                        Some(v) => Some(v),
                        None => map_get(main, key),
                    },
                    None => false,
                },
                None => options == main,
            },
            None => options == main,
        },
{
    match extension_of(path, separator) {
        Some(e) => match map_get(overrides, lowercase_text(e)) {
            Some(o) => match model_as_object(o) {
                Some(es) => {
                    lemma_insert_all_get(main, es, key);
                },
                None => {},
            },
            None => {},
        },
        None => {},
    }
}

} // verus!
