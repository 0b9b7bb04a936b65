//! Text handling of the command-line converter: encoding labels, byte order
//! marks, line endings and the optional compatibility pre-pass.

use std::borrow::Cow;
use vstd::prelude::*;
use vstd::utf8::encode_utf8;
use crate::compat_ideographs::{normalize_compat_ideographs, COMPAT_BMP_DATA, COMPAT_SUPP_DATA, dense_lookup};
use crate::encoding::{
    decode_with_label, decoded_with_label, encode_with_label, encoded_with_label,
    encoding_label_known, lossy_utf8, names_encoding, utf8_lossy,
};
use crate::text::{push_char, push_chars, str_to_chars};
use crate::unicode_compat::{
    combined_char, normalize_unicode_compat_all, pairs_map, UNICODE_COMPAT_PAIRS,
};

verus! {

// ---------------------------------------------------------------------------
// Encoding labels
// ---------------------------------------------------------------------------

/// The scalar value of `c` with an ASCII upper-case letter turned into lower case.
pub open spec fn ascii_lower(c: char) -> int {
    if 0x41 <= c as u32 <= 0x5A {
        c as u32 + 32
    } else {
        c as u32 as int
    }
}

/// `str::eq_ignore_ascii_case`: the same text up to the case of ASCII letters.
pub open spec fn eq_ignore_ascii_case(a: Seq<char>, b: Seq<char>) -> bool {
    a.len() == b.len() && forall|i: int| 0 <= i < a.len() ==> #[trigger] ascii_lower(a[i])
        == ascii_lower(b[i])
}

/// The label `UTF-8`, in any ASCII case.
pub open spec fn is_utf8_label(enc: Seq<char>) -> bool {
    eq_ignore_ascii_case(enc, "UTF-8"@)
}

/// Encodings that the tool accepts: `UTF-8` in any case, or any label that
/// `encoding_rs` recognizes.
pub open spec fn is_supported_encoding(enc: Seq<char>) -> bool {
    is_utf8_label(enc) || names_encoding(encode_utf8(enc))
}

/// A label is accepted exactly when it is `UTF-8` up to the case of ASCII
/// letters or when `encoding_rs` recognizes it, whatever its length.
pub proof fn law_accepted_encoding_labels(enc: Seq<char>)
    ensures
        is_supported_encoding(enc) <==> (eq_ignore_ascii_case(enc, "UTF-8"@) || names_encoding(
            encode_utf8(enc),
        )),
        names_encoding(encode_utf8(enc)) ==> is_supported_encoding(enc),
        eq_ignore_ascii_case(enc, "UTF-8"@) ==> is_supported_encoding(enc),
{
}

fn ascii_lower_char(c: char) -> (r: u32)
    ensures
        r == ascii_lower(c),
{
    let u = c as u32;
    if 0x41 <= u && u <= 0x5A {
        u + 32
    } else {
        u
    }
}

/// Compares two texts ignoring the case of ASCII letters.
pub fn eq_ignore_ascii_case_str(a: &str, b: &str) -> (r: bool)
    ensures
        r == eq_ignore_ascii_case(a@, b@),
{
    let va = str_to_chars(a);
    let vb = str_to_chars(b);
    if va.len() != vb.len() {
        return false;
    }
    let mut i: usize = 0;
    while i < va.len()
        invariant
            va@ == a@,
            vb@ == b@,
            va@.len() == vb@.len(),
            i <= va@.len(),
            forall|j: int| 0 <= j < i ==> #[trigger] ascii_lower(va@[j]) == ascii_lower(vb@[j]),
        decreases va.len() - i,
    {
        if ascii_lower_char(va[i]) != ascii_lower_char(vb[i]) {
            return false;
        }
        i += 1;
    }
    true
}

/// Whether `enc` is the label `UTF-8` in any ASCII case.
pub fn is_utf8(enc: &str) -> (r: bool)
    ensures
        r == is_utf8_label(enc@),
{
    eq_ignore_ascii_case_str(enc, "UTF-8")
}

/// Accepts `UTF-8` and every label that `encoding_rs` recognizes; refuses
/// any other with `Unsupported encoding: {enc}`.
pub fn validate_encoding(enc: &str) -> (r: Result<(), String>)
    ensures
        r is Ok <==> is_supported_encoding(enc@),
        r is Ok <==> (eq_ignore_ascii_case(enc@, "UTF-8"@) || names_encoding(encode_utf8(enc@))),
        r matches Err(e) ==> e@ == "Unsupported encoding: "@ + enc@,
{
    if is_utf8(enc) || encoding_label_known(enc.as_bytes()) {
        Ok(())
    } else {
        let mut msg = String::new();
        msg.append("Unsupported encoding: ");
        msg.append(enc);
        Err(msg)
    }
}

/// Decodes the input bytes: lossy UTF-8 for the `UTF-8` label, the named
/// encoding through `encoding_rs_io` for any other supported label.
pub fn decode_input(buffer: &[u8], enc: &str) -> (r: Result<String, String>)
    ensures
        !is_supported_encoding(enc@) ==> (r matches Err(e) && e@ == "Unsupported encoding: "@
            + enc@),
        is_utf8_label(enc@) ==> (r matches Ok(s) && s@ == lossy_utf8(buffer@)),
        is_supported_encoding(enc@) && !is_utf8_label(enc@) ==> (r matches Ok(s) && s@
            == decoded_with_label(encode_utf8(enc@), buffer@)),
{
    validate_encoding(enc)?;
    if is_utf8(enc) {
        return Ok(utf8_lossy(buffer));
    }
    decode_with_label(enc.as_bytes(), buffer)
}

/// The bytes written for `text`: its UTF-8 bytes for the `UTF-8` label, the
/// named encoding for any other supported label.
pub fn encode_output(text: &str, enc: &str) -> (r: Result<Vec<u8>, String>)
    ensures
        !is_supported_encoding(enc@) ==> (r matches Err(e) && e@ == "Unsupported encoding: "@
            + enc@),
        is_utf8_label(enc@) ==> (r matches Ok(b) && b@ == encode_utf8(text@)),
        is_supported_encoding(enc@) && !is_utf8_label(enc@) ==> (r matches Ok(b) && b@
            == encoded_with_label(encode_utf8(enc@), text@)),
{
    validate_encoding(enc)?;
    if is_utf8(enc) {
        return Ok(vstd::slice::slice_to_vec(text.as_bytes()));
    }
    Ok(encode_with_label(enc.as_bytes(), text))
}

// ---------------------------------------------------------------------------
// Byte order marks
// ---------------------------------------------------------------------------

/// The UTF-8 byte order mark starts `b`.
pub open spec fn starts_with_utf8_bom(b: Seq<u8>) -> bool {
    b.len() >= 3 && b[0] == 0xEF && b[1] == 0xBB && b[2] == 0xBF
}

/// A byte order mark is dropped when UTF-8 input is re-encoded into a
/// non-UTF-8 output encoding.
pub fn should_remove_bom(in_enc: &str, out_enc: &str) -> (r: bool)
    ensures
        r == (is_utf8_label(in_enc@) && !is_utf8_label(out_enc@)),
{
    is_utf8(in_enc) && !is_utf8(out_enc)
}

/// Removes a leading UTF-8 byte order mark, if there is one.
pub fn remove_utf8_bom(input: &mut Vec<u8>)
    ensures
        starts_with_utf8_bom(old(input)@) ==> final(input)@ == old(input)@.skip(3),
        !starts_with_utf8_bom(old(input)@) ==> final(input)@ == old(input)@,
{
    if input.len() >= 3 && input[0] == 0xEF && input[1] == 0xBB && input[2] == 0xBF {
        input.remove(0);
        input.remove(0);
        input.remove(0);
        assert(input@ == old(input)@.skip(3));
    }
}

// ---------------------------------------------------------------------------
// Line endings
// ---------------------------------------------------------------------------

/// `s` with every `"\r\n"` and every lone `'\r'` turned into `'\n'`.
pub open spec fn unify_line_endings(s: Seq<char>) -> Seq<char>
    decreases s.len(),
{
    if s.len() == 0 {
        seq![]
    } else if s[0] == '\r' {
        if s.len() > 1 && s[1] == '\n' {
            seq!['\n'] + unify_line_endings(s.skip(2))
        } else {
            seq!['\n'] + unify_line_endings(s.skip(1))
        }
    } else {
        seq![s[0]] + unify_line_endings(s.skip(1))
    }
}

/// Text without a carriage return is left as it is.
pub proof fn law_text_without_carriage_return_is_kept(s: Seq<char>)
    requires
        !s.contains('\r'),
    ensures
        unify_line_endings(s) == s,
    decreases s.len(),
{
    if s.len() > 0 {
        assert(!s.skip(1).contains('\r')) by {
            if s.skip(1).contains('\r') {
                let i = choose|i: int| 0 <= i < s.skip(1).len() && s.skip(1)[i] == '\r';
                assert(s[i + 1] == '\r');
            }
        }
        assert(s[0] != '\r') by {
            if s[0] == '\r' {
                assert(s.contains('\r'));
            }
        }
        law_text_without_carriage_return_is_kept(s.skip(1));
        assert(seq![s[0]] + s.skip(1) == s);
    }
}

/// Unified line endings hold no carriage return.
pub proof fn law_unified_text_has_no_carriage_return(s: Seq<char>)
    ensures
        !unify_line_endings(s).contains('\r'),
    decreases s.len(),
{
    if s.len() > 0 {
        let rest = if s[0] == '\r' && s.len() > 1 && s[1] == '\n' {
            s.skip(2)
        } else {
            s.skip(1)
        };
        law_unified_text_has_no_carriage_return(rest);
        let head = if s[0] == '\r' {
            '\n'
        } else {
            s[0]
        };
        assert(unify_line_endings(s) == seq![head] + unify_line_endings(rest));
        if unify_line_endings(s).contains('\r') {
            let i = choose|i: int|
                0 <= i < unify_line_endings(s).len() && unify_line_endings(s)[i] == '\r';
            if i > 0 {
                assert(unify_line_endings(rest)[i - 1] == '\r');
            }
        }
    }
}

/// Unifying line endings twice gives what unifying once gives.
pub proof fn law_unify_line_endings_is_idempotent(s: Seq<char>)
    ensures
        unify_line_endings(unify_line_endings(s)) == unify_line_endings(s),
{
    law_unified_text_has_no_carriage_return(s);
    law_text_without_carriage_return_is_kept(unify_line_endings(s));
}

/// Turns `"\r\n"` and lone `'\r'` line endings into `'\n'`.
pub fn normalize_line_endings(s: &str) -> (r: String)
    ensures
        r@ == unify_line_endings(s@),
{
    let v = str_to_chars(s);
    let mut has_cr = false;
    let mut k: usize = 0;
    while k < v.len()
        invariant
            k <= v@.len(),
            has_cr <==> exists|j: int| 0 <= j < k && v@[j] == '\r',
        decreases v.len() - k,
    {
        if v[k] == '\r' {
            has_cr = true;
        }
        k += 1;
    }
    if !has_cr {
        proof {
            assert(!v@.contains('\r'));
            law_text_without_carriage_return_is_kept(v@);
        }
        let mut out = String::new();
        push_chars(&mut out, &v, 0, v.len());
        assert(v@.subrange(0, v@.len() as int) == v@);
        return out;
    }
    let mut out: Vec<char> = Vec::new();
    let mut i: usize = 0;
    proof {
        assert(v@.skip(0) == v@);
    }
    while i < v.len()
        invariant
            i <= v@.len(),
            v@ == s@,
            unify_line_endings(v@) == out@ + unify_line_endings(v@.skip(i as int)),
        decreases v.len() - i,
    {
        let ghost t = v@.skip(i as int);
        let c = v[i];
        if c == '\r' {
            if i + 1 < v.len() && v[i + 1] == '\n' {
                proof {
                    assert(t[1] == '\n');
                    assert(t.skip(2) =~= v@.skip(i + 2));
                    assert(out@.push('\n') + unify_line_endings(t.skip(2)) == out@ + (seq!['\n']
                        + unify_line_endings(t.skip(2))));
                }
                i += 2;
            } else {
                proof {
                    assert(t.skip(1) =~= v@.skip(i + 1));
                    assert(out@.push('\n') + unify_line_endings(t.skip(1)) == out@ + (seq!['\n']
                        + unify_line_endings(t.skip(1))));
                }
                i += 1;
            }
            out.push('\n');
        } else {
            proof {
                assert(t.skip(1) =~= v@.skip(i + 1));
                assert(out@.push(c) + unify_line_endings(t.skip(1)) == out@ + (seq![c]
                    + unify_line_endings(t.skip(1))));
            }
            out.push(c);
            i += 1;
        }
    }
    let mut r = String::new();
    push_chars(&mut r, &out, 0, out.len());
    proof {
        assert(v@.skip(i as int) == Seq::<char>::empty());
        assert(out@.subrange(0, out@.len() as int) == out@);
    }
    r
}

// ---------------------------------------------------------------------------
// Compatibility pre-pass
// ---------------------------------------------------------------------------

/// Applies the compatibility pre-pass that a text command selects. Extended
/// normalization (CJK Compatibility Ideographs, then the curated table)
/// takes precedence when both flags are set; with neither, the input is
/// borrowed unchanged.
pub fn normalize_cli_input<'a>(
    input: &'a str,
    normalize_compat: bool,
    normalize_compat_extended: bool,
) -> (r: Cow<'a, str>)
    ensures
        normalize_compat_extended ==> (r matches Cow::Owned(s) && s@ == input@.map_values(
            |c: char|
                combined_char(pairs_map(UNICODE_COMPAT_PAIRS@, UNICODE_COMPAT_PAIRS@.len() / 2), c),
        )),
        !normalize_compat_extended && normalize_compat ==> (r matches Cow::Owned(s) && s@
            == input@.map_values(|c: char| dense_lookup(COMPAT_BMP_DATA@, COMPAT_SUPP_DATA@, c))),
        !normalize_compat_extended && !normalize_compat ==> (r matches Cow::Borrowed(b) && b@
            == input@),
{
    if normalize_compat_extended {
        Cow::Owned(normalize_unicode_compat_all(input))
    } else if normalize_compat {
        Cow::Owned(normalize_compat_ideographs(input))
    } else {
        Cow::Borrowed(input)
    }
}

// ---------------------------------------------------------------------------
// Comparing and joining text
// ---------------------------------------------------------------------------

/// Whether two texts hold the same characters.
pub fn str_eq(a: &str, b: &str) -> (r: bool)
    ensures
        r == (a@ == b@),
{
    let va = str_to_chars(a);
    let vb = str_to_chars(b);
    if va.len() != vb.len() {
        return false;
    }
    let mut i: usize = 0;
    while i < va.len()
        invariant
            va@ == a@,
            vb@ == b@,
            va@.len() == vb@.len(),
            i <= va@.len(),
            forall|j: int| 0 <= j < i ==> #[trigger] va@[j] == vb@[j],
        decreases va.len() - i,
    {
        if va[i] != vb[i] {
            return false;
        }
        i += 1;
    }
    assert(va@ =~= vb@);
    true
}

/// The parts joined with `sep` between consecutive parts (`[T]::join`).
pub open spec fn join(parts: Seq<Seq<char>>, sep: Seq<char>) -> Seq<char>
    decreases parts.len(),
{
    if parts.len() == 0 {
        seq![]
    } else if parts.len() == 1 {
        parts[0]
    } else {
        join(parts.drop_last(), sep) + sep + parts.last()
    }
}

proof fn lemma_join_step(parts: Seq<Seq<char>>, sep: Seq<char>, i: int)
    requires
        0 < i < parts.len(),
    ensures
        join(parts.take(i + 1), sep) == join(parts.take(i), sep) + sep + parts[i],
{
    assert(parts.take(i + 1).drop_last() =~= parts.take(i));
}

proof fn lemma_join_first(parts: Seq<Seq<char>>, sep: Seq<char>)
    requires
        0 < parts.len(),
    ensures
        join(parts.take(1), sep) == parts[0],
{
    assert(parts.take(1).len() == 1);
}

/// The words joined with `delimiter` between them.
pub fn join_words(words: &Vec<String>, delimiter: &str) -> (r: String)
    ensures
        r@ == join(words@.map_values(|w: String| w@), delimiter@),
{
    let ghost parts = words@.map_values(|w: String| w@);
    let mut out = String::new();
    let mut i: usize = 0;
    while i < words.len()
        invariant
            i <= words@.len(),
            parts == words@.map_values(|w: String| w@),
            out@ == join(parts.take(i as int), delimiter@),
        decreases words.len() - i,
    {
        proof {
            if i == 0 {
                lemma_join_first(parts, delimiter@);
            } else {
                lemma_join_step(parts, delimiter@, i as int);
            }
        }
        if i > 0 {
            out.append(delimiter);
        }
        out.append(words[i].as_str());
        i += 1;
    }
    assert(parts.take(words@.len() as int) =~= parts);
    out
}

// ---------------------------------------------------------------------------
// Segmentation output
// ---------------------------------------------------------------------------

/// Segmentation modes of the `segment` command.
#[derive(Debug, Clone, Copy, PartialEq, Eq, Structural)]
pub enum SegmentMode {
    /// Accurate segmentation (`cut`, and any other mode name).
    Cut,
    /// Segmentation for search indexing (`search`).
    Search,
    /// Full segmentation (`all`).
    All,
    /// Segmentation with part-of-speech tags (`tag`).
    Tag,
}

/// The mode that a mode name selects; an unknown name selects `Cut`.
pub open spec fn segment_mode_of(mode: Seq<char>) -> SegmentMode {
    if mode == "search"@ {
        SegmentMode::Search
    } else if mode == "all"@ {
        SegmentMode::All
    } else if mode == "tag"@ {
        SegmentMode::Tag
    } else {
        SegmentMode::Cut
    }
}

/// Reads a segmentation mode name.
pub fn segment_mode(mode: &str) -> (r: SegmentMode)
    ensures
        r == segment_mode_of(mode@),
{
    if str_eq(mode, "search") {
        SegmentMode::Search
    } else if str_eq(mode, "all") {
        SegmentMode::All
    } else if str_eq(mode, "tag") {
        SegmentMode::Tag
    } else {
        SegmentMode::Cut
    }
}

/// Tagged words written `word{separator}tag`, joined with `delimiter`.
pub fn format_tagged(pairs: &Vec<(String, String)>, delimiter: &str, separator: &str) -> (r: String)
    ensures
        r@ == join(pairs@.map_values(|p: (String, String)| p.0@ + separator@ + p.1@), delimiter@),
{
    let ghost parts = pairs@.map_values(|p: (String, String)| p.0@ + separator@ + p.1@);
    let mut out = String::new();
    let mut i: usize = 0;
    while i < pairs.len()
        invariant
            i <= pairs@.len(),
            parts == pairs@.map_values(|p: (String, String)| p.0@ + separator@ + p.1@),
            out@ == join(parts.take(i as int), delimiter@),
        decreases pairs.len() - i,
    {
        proof {
            if i == 0 {
                lemma_join_first(parts, delimiter@);
            } else {
                lemma_join_step(parts, delimiter@, i as int);
            }
        }
        if i > 0 {
            out.append(delimiter);
        }
        let (w, t) = &pairs[i];
        out.append(w.as_str());
        out.append(separator);
        out.append(t.as_str());
        i += 1;
    }
    assert(parts.take(pairs@.len() as int) =~= parts);
    out
}

/// `s` without its trailing `'\n'` characters (`str::trim_end_matches('\n')`).
pub open spec fn trim_trailing_newlines(s: Seq<char>) -> Seq<char>
    decreases s.len(),
{
    if s.len() > 0 && s.last() == '\n' {
        trim_trailing_newlines(s.drop_last())
    } else {
        s
    }
}

proof fn lemma_trim_trailing_newlines_at(s: Seq<char>, k: int)
    requires
        0 <= k <= s.len(),
        forall|i: int| k <= i < s.len() ==> #[trigger] s[i] == '\n',
        k == 0 || s[k - 1] != '\n',
    ensures
        trim_trailing_newlines(s) == s.take(k),
    decreases s.len() - k,
{
    if k == s.len() {
        assert(s.take(k) == s);
    } else {
        let t = s.drop_last();
        assert forall|i: int| k <= i < t.len() implies #[trigger] t[i] == '\n' by {
            assert(t[i] == s[i]);
        }
        lemma_trim_trailing_newlines_at(t, k);
        assert(t.take(k) == s.take(k));
    }
}

/// Console input for segmentation: line endings unified, then the trailing
/// newlines of the submission removed.
pub fn console_segment_input(s: &str) -> (r: String)
    ensures
        r@ == trim_trailing_newlines(unify_line_endings(s@)),
{
    let unified = normalize_line_endings(s);
    let v = str_to_chars(unified.as_str());
    let mut b = v.len();
    while b > 0 && v[b - 1] == '\n'
        invariant
            b <= v@.len(),
            forall|i: int| b <= i < v@.len() ==> #[trigger] v@[i] == '\n',
        decreases b,
    {
        b -= 1;
    }
    proof {
        lemma_trim_trailing_newlines_at(v@, b as int);
        assert(v@.take(b as int) == v@.subrange(0, b as int));
    }
    let mut out = String::new();
    push_chars(&mut out, &v, 0, b);
    out
}

/// Output for the console ends with a newline: one is added when missing.
/// Output written to a file is left as it is.
pub fn finish_output(s: String, is_console: bool) -> (r: String)
    ensures
        r@ == if is_console && !(s@.len() > 0 && s@.last() == '\n') {
            s@.push('\n')
        } else {
            s@
        },
{
    if !is_console {
        return s;
    }
    let v = str_to_chars(s.as_str());
    if v.len() > 0 && v[v.len() - 1] == '\n' {
        return s;
    }
    let mut s = s;
    push_char(&mut s, '\n');
    s
}

// ---------------------------------------------------------------------------
// Office documents
// ---------------------------------------------------------------------------

/// Unicode lower-case mapping of `s`, as `str::to_lowercase` computes it.
pub uninterp spec fn lowercased(s: Seq<char>) -> Seq<char>;

/// `str::to_lowercase`.
///
/// Trusted: the result is [`lowercased`] of the text, a function of the
/// text alone (std documents it as the Unicode `Lowercase` mapping).
#[verifier::external_body]
pub(crate) fn to_lowercase(s: &str) -> (r: String)
    ensures
        r@ == lowercased(s@),
{
    s.to_lowercase()
}

/// The document formats of the `office` command.
pub open spec fn is_office_format(f: Seq<char>) -> bool {
    ||| f == "docx"@
    ||| f == "xlsx"@
    ||| f == "pptx"@
    ||| f == "odt"@
    ||| f == "ods"@
    ||| f == "odp"@
    ||| f == "epub"@
}

/// Whether `f` names one of the document formats.
pub fn is_office_format_str(f: &str) -> (r: bool)
    ensures
        r == is_office_format(f@),
        r == (f@ == "docx"@ || f@ == "xlsx"@ || f@ == "pptx"@ || f@ == "odt"@ || f@ == "ods"@
            || f@ == "odp"@ || f@ == "epub"@),
{
    str_eq(f, "docx") || str_eq(f, "xlsx") || str_eq(f, "pptx") || str_eq(f, "odt") || str_eq(
        f,
        "ods",
    ) || str_eq(f, "odp") || str_eq(f, "epub")
}

/// The document format of the `office` command: `--format` lower-cased when
/// given, else the input file's extension lower-cased, or the message for
/// the case that fails.
pub open spec fn office_format_spec(format: Option<Seq<char>>, input_ext: Option<Seq<char>>) -> Result<
    Seq<char>,
    Seq<char>,
> {
    match format {
        Some(f) => if is_office_format(lowercased(f)) {
            Ok(lowercased(f))
        } else {
            Err("\u{274C}  Unsupported Office format: "@ + lowercased(f))
        },
        None => match input_ext {
            None => Err("\u{274C}  Cannot infer file extension. Please provide --format."@),
            Some(e) => if is_office_format(lowercased(e)) {
                Ok(lowercased(e))
            } else {
                Err("\u{274C}  Unsupported Office extension: ."@ + lowercased(e)
                    + ". Please provide --format."@)
            },
        },
    }
}

/// The document formats are exactly the seven documented names `docx`,
/// `xlsx`, `pptx`, `odt`, `ods`, `odp` and `epub`.
pub proof fn law_office_formats_are_the_documented_names(f: Seq<char>)
    ensures
        is_office_format(f) <==> (f == "docx"@ || f == "xlsx"@ || f == "pptx"@ || f == "odt"@ || f
            == "ods"@ || f == "odp"@ || f == "epub"@),
{
}

/// Each documented format, given by `--format` or, without it, as the input
/// file's extension, in any case that lower-cases to it, resolves to that
/// lower-cased name.
pub proof fn law_documented_formats_resolve(f: Seq<char>, input_ext: Option<Seq<char>>)
    ensures
        (lowercased(f) == "docx"@ || lowercased(f) == "xlsx"@ || lowercased(f) == "pptx"@
            || lowercased(f) == "odt"@ || lowercased(f) == "ods"@ || lowercased(f) == "odp"@
            || lowercased(f) == "epub"@) ==> office_format_spec(Some(f), input_ext) == Ok::<
            Seq<char>,
            Seq<char>,
        >(lowercased(f)) && office_format_spec(None, Some(f)) == Ok::<Seq<char>, Seq<char>>(
            lowercased(f),
        ),
{
}

/// Resolves the document format from `--format` or, without it, from the
/// input file's extension (`None` when the input has none readable as UTF-8).
pub fn resolve_office_format(format: Option<&str>, input_ext: Option<&str>) -> (r: Result<
    String,
    String,
>)
    ensures
        match (
            r,
            office_format_spec(
                match format {
                    Some(f) => Some(f@),
                    None => None,
                },
                match input_ext {
                    Some(e) => Some(e@),
                    None => None,
                },
            ),
        ) {
            (Ok(a), Ok(b)) => a@ == b,
            (Err(a), Err(b)) => a@ == b,
            _ => false,
        },
{
    match format {
        Some(f) => {
            let lower = to_lowercase(f);
            if is_office_format_str(lower.as_str()) {
                Ok(lower)
            } else {
                let mut msg = String::new();
                msg.append("\u{274C}  Unsupported Office format: ");
                msg.append(lower.as_str());
                Err(msg)
            }
        },
        None => match input_ext {
            None => {
                let mut msg = String::new();
                msg.append("\u{274C}  Cannot infer file extension. Please provide --format.");
                Err(msg)
            },
            Some(e) => {
                let lower = to_lowercase(e);
                if is_office_format_str(lower.as_str()) {
                    Ok(lower)
                } else {
                    let mut msg = String::new();
                    msg.append("\u{274C}  Unsupported Office extension: .");
                    msg.append(lower.as_str());
                    msg.append(". Please provide --format.");
                    Err(msg)
                }
            },
        },
    }
}

/// The output file name of the `office` command: the `-o` value, with
/// `.{format}` appended when it has no extension; without `-o`,
/// `{stem}_converted.{format}` (to be placed beside the input).
pub fn office_output_name(
    output: Option<&str>,
    output_has_extension: bool,
    stem: &str,
    format: &str,
) -> (r: String)
    ensures
        r@ == match output {
            Some(q) => if output_has_extension {
                q@
            } else {
                q@ + "."@ + format@
            },
            None => stem@ + "_converted."@ + format@,
        },
{
    let mut name = String::new();
    match output {
        Some(q) => {
            name.append(q);
            if !output_has_extension {
                name.append(".");
                name.append(format);
            }
        },
        None => {
            name.append(stem);
            name.append("_converted.");
            name.append(format);
        },
    }
    name
}

} // verus!
