use vstd::prelude::*;

verus! {

/// The text that the translation task hands back for `text` and `target_lang`.
pub open spec fn translate_result(text: Seq<char>, target_lang: Seq<char>) -> Seq<char> {
    "Translated '"@ + text + "' to "@ + target_lang
}

/// Placeholder translation: reports what would be translated, and never fails.
pub fn run_translate(text: String, target_lang: String) -> (res: Result<String, String>)
    ensures
        res matches Ok(s) && s@ == translate_result(text@, target_lang@),
{
    let mut out = String::from_str("Translated '");
    out.append(text.as_str());
    out.append("' to ");
    out.append(target_lang.as_str());
    proof {
        reveal_strlit("Translated '");
        reveal_strlit("' to ");
    }
    Ok(out)
}

/// Name for the text `{:?}` gives for the path `s` (quoted, with escapes).
pub uninterp spec fn path_debug(s: Seq<char>) -> Seq<char>;

/// Whether every character is printable ASCII other than `"`, `'` and `\`.
pub open spec fn plain_ascii(s: Seq<char>) -> bool {
    forall|i: int|
        0 <= i < s.len() ==> 32 <= (#[trigger] s[i] as u32) <= 126 && s[i] != '"' && s[i] != '\''
            && s[i] != '\\'
}

/// `format!("{:?}", PathBuf::from(s))`: the path in double quotes with special
/// characters escaped; printable ASCII other than quotes and backslashes stays
/// as it is.
#[verifier::external_body]
fn path_debug_string(s: &str) -> (d: String)
    ensures
        d@ == path_debug(s@),
        plain_ascii(s@) ==> d@ == "\""@ + s@ + "\""@,
{
    format!("{:?}", std::path::PathBuf::from(s))
}

/// Placeholder text extraction: reports which file would be read, and never fails.
pub fn run_file_extract(file_path: String) -> (res: Result<String, String>)
    ensures
        res matches Ok(s) && s@ == "Extracted content from "@ + path_debug(file_path@),
{
    let mut out = String::from_str("Extracted content from ");
    let d = path_debug_string(file_path.as_str());
    out.append(d.as_str());
    Ok(out)
}

/// Native OCR is only available with the macOS Vision framework; elsewhere it fails.
pub fn run_native_ocr(image_path: &str) -> (res: Result<String, String>)
    ensures
        res matches Err(e) && e@ == "Native OCR is only supported on macOS"@,
{
    Err(String::from_str("Native OCR is only supported on macOS"))
}

/// The text shown for an item while its OCR runs.
pub const OCR_PENDING_TEXT: &'static str = "OCR 正在识别...";

/// The text stored for an image once its OCR finished: the recognised text,
/// or the failure with its reason.
pub fn ocr_result_text(res: Result<String, String>) -> (t: String)
    ensures
        t@ == match res {
            Ok(s) => s@,
            Err(e) => "OCR 识别失败："@ + e@,
        },
{
    match res {
        Ok(s) => s,
        Err(e) => {
            let mut out = String::from_str("OCR 识别失败：");
            out.append(e.as_str());
            out
        },
    }
}

} // verus!
