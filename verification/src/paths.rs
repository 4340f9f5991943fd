//! A model of Unix path components (as `std::path::Path` reads them) and the
//! file-type tests that the clipboard capture makes on copied paths.
use vstd::prelude::*;
use crate::text::{views_of, chars_of, chars_equal, copy_range, string_from_chars, lowercase_chars, lowercase_vec, equals_any};

verus! {

/// The root component, written as `/`.
pub open spec fn root_component() -> Seq<char> {
    seq!['/']
}

/// The leading current-directory component, written as `.`.
pub open spec fn cur_dir_component() -> Seq<char> {
    seq!['.']
}

/// The parent-directory component `..`.
pub open spec fn parent_component() -> Seq<char> {
    seq!['.', '.']
}

/// Whether a `/`-separated segment survives as a component: empty segments
/// and interior `.` segments are dropped.
pub open spec fn kept_segment(seg: Seq<char>) -> bool {
    seg.len() > 0 && seg != cur_dir_component()
}

/// The kept segment `seg`, as a sequence of zero or one components.
pub open spec fn keep(seg: Seq<char>) -> Seq<Seq<char>> {
    if kept_segment(seg) {
        seq![seg]
    } else {
        seq![]
    }
}

/// The kept segments of `s`, scanning from the partial segment `cur`.
pub open spec fn segments_from(s: Seq<char>, cur: Seq<char>) -> Seq<Seq<char>>
    decreases s.len(),
{
    if s.len() == 0 {
        keep(cur)
    } else if s[0] == '/' {
        keep(cur) + segments_from(s.drop_first(), seq![])
    } else {
        segments_from(s.drop_first(), cur.push(s[0]))
    }
}

/// The component that a path's first characters contribute before its
/// `/`-separated segments: the root, a leading `.`, or nothing.
pub open spec fn leading_component(s: Seq<char>) -> Seq<Seq<char>> {
    if s.len() > 0 && s[0] == '/' {
        seq![root_component()]
    } else if s.len() > 0 && s[0] == '.' && (s.len() == 1 || s[1] == '/') {
        seq![cur_dir_component()]
    } else {
        seq![]
    }
}

/// The components of the Unix path `s`, in order.
pub open spec fn components(s: Seq<char>) -> Seq<Seq<char>> {
    leading_component(s) + segments_from(s, seq![])
}

/// The final component of `s` when it is a normal name (what `Path::file_name` gives).
pub open spec fn file_name(s: Seq<char>) -> Option<Seq<char>> {
    let c = components(s);
    if c.len() == 0 {
        None
    } else {
        let last = c.last();
        if last == root_component() || last == cur_dir_component() || last == parent_component() {
            None
        } else {
            Some(last)
        }
    }
}

/// Index of the last `.` in `s`, or -1.
pub open spec fn last_dot(s: Seq<char>) -> int
    decreases s.len(),
{
    if s.len() == 0 {
        -1
    } else if s.last() == '.' {
        s.len() - 1
    } else {
        last_dot(s.drop_last())
    }
}

/// The extension of a file name: the text after its last `.`, when that dot is
/// not the name's first character.
pub open spec fn name_extension(name: Seq<char>) -> Option<Seq<char>> {
    let i = last_dot(name);
    if i <= 0 {
        None
    } else {
        Some(name.subrange(i + 1, name.len() as int))
    }
}

/// The extension of the path `s` (what `Path::extension` gives).
pub open spec fn path_extension(s: Seq<char>) -> Option<Seq<char>> {
    match file_name(s) {
        Some(name) => name_extension(name),
        None => None,
    }
}

/// Whether the components of `base` begin the components of `path`
/// (what `Path::starts_with` tests: whole components only).
pub open spec fn path_starts_with(path: Seq<char>, base: Seq<char>) -> bool {
    components(base).is_prefix_of(components(path))
}

fn is_kept_segment(seg: &[char]) -> (b: bool)
    ensures
        b == kept_segment(seg@),
{
    if seg.len() == 0 {
        false
    } else if seg.len() == 1 && seg[0] == '.' {
        assert(seg@ =~= cur_dir_component());
        false
    } else {
        assert(seg@ != cur_dir_component()) by {
            if seg@.len() == 1 {
                assert(seg@[0] != cur_dir_component()[0]);
            }
        }
        true
    }
}

/// The components of a Unix path.
pub fn components_of(p: &[char]) -> (r: Vec<Vec<char>>)
    ensures
        views_of(r@) == components(p@),
{
    let mut out: Vec<Vec<char>> = Vec::new();
    if p.len() > 0 && p[0] == '/' {
        out.push(vec!['/']);
        assert(out@[0]@ =~= root_component());
        assert(views_of(out@) =~= leading_component(p@));
    } else if p.len() > 0 && p[0] == '.' && (p.len() == 1 || p[1] == '/') {
        out.push(vec!['.']);
        assert(out@[0]@ =~= cur_dir_component());
        assert(views_of(out@) =~= leading_component(p@));
    } else {
        assert(views_of(out@) =~= leading_component(p@));
    }
    let mut cur: Vec<char> = Vec::new();
    let mut i: usize = 0;
    assert(p@.subrange(0, p@.len() as int) =~= p@);
    assert(cur@ =~= Seq::<char>::empty());
    while i < p.len()
        invariant
            i <= p@.len(),
            components(p@) == views_of(out@) + segments_from(
                p@.subrange(i as int, p@.len() as int),
                cur@,
            ),
        decreases p@.len() - i,
    {
        let ghost rest = p@.subrange(i as int, p@.len() as int);
        assert(rest.drop_first() =~= p@.subrange(i + 1, p@.len() as int));
        let c = p[i];
        if c == '/' {
            let ghost old_out = out@;
            let ghost old_cur = cur@;
            if is_kept_segment(cur.as_slice()) {
                out.push(cur);
                assert(views_of(out@) =~= views_of(old_out) + keep(old_cur));
            } else {
                assert(views_of(out@) =~= views_of(old_out) + keep(old_cur));
            }
            cur = Vec::new();
            assert(cur@ =~= Seq::<char>::empty());
        } else {
            cur.push(c);
        }
        i += 1;
    }
    assert(p@.subrange(i as int, p@.len() as int) =~= Seq::<char>::empty());
    let ghost old_out = out@;
    if is_kept_segment(cur.as_slice()) {
        let ghost c = cur@;
        out.push(cur);
        assert(views_of(out@) =~= views_of(old_out) + keep(c));
    } else {
        assert(views_of(out@) =~= views_of(old_out) + keep(cur@));
    }
    out
}

/// The file name of a Unix path, when its last component is a normal name.
pub fn file_name_of(p: &[char]) -> (r: Option<Vec<char>>)
    ensures
        match r {
            Some(v) => file_name(p@) == Some(v@),
            None => file_name(p@) is None,
        },
{
    let mut comps = components_of(p);
    let ghost cv = views_of(comps@);
    if comps.len() == 0 {
        return None;
    }
    let last = comps.pop().unwrap();
    assert(last@ == cv.last());
    if last.len() == 1 && (last[0] == '/' || last[0] == '.') {
        if last[0] == '/' {
            assert(last@ =~= root_component());
        } else {
            assert(last@ =~= cur_dir_component());
        }
        None
    } else if last.len() == 2 && last[0] == '.' && last[1] == '.' {
        assert(last@ =~= parent_component());
        None
    } else {
        assert(last@ != root_component() && last@ != cur_dir_component() && last@
            != parent_component()) by {
            if last@.len() == 1 {
                assert(last@[0] != root_component()[0] || last@ != root_component());
                assert(last@[0] != cur_dir_component()[0] || last@ != cur_dir_component());
            }
            if last@.len() == 2 {
                assert(last@[0] != parent_component()[0] || last@[1] != parent_component()[1]);
            }
        }
        Some(last)
    }
}

fn find_last_dot(name: &[char]) -> (i: Option<usize>)
    ensures
        match i {
            Some(k) => last_dot(name@) == k as int && k < name@.len(),
            None => last_dot(name@) == -1,
        },
{
    let mut k: usize = name.len();
    assert(name@.subrange(0, k as int) =~= name@);
    while k > 0
        invariant
            k <= name@.len(),
            last_dot(name@) == last_dot(name@.subrange(0, k as int)),
        decreases k,
    {
        let ghost cur = name@.subrange(0, k as int);
        if name[k - 1] == '.' {
            return Some(k - 1);
        }
        assert(cur.drop_last() =~= name@.subrange(0, k - 1));
        k -= 1;
    }
    None
}

/// The extension of a file name.
pub fn extension_of_name(name: &[char]) -> (r: Option<Vec<char>>)
    ensures
        match r {
            Some(v) => name_extension(name@) == Some(v@),
            None => name_extension(name@) is None,
        },
{
    match find_last_dot(name) {
        Some(k) => {
            assert(k < name@.len());
            assert(name@.len() == name.len());
            if k == 0 {
                None
            } else {
                Some(copy_range(name, k + 1, name.len()))
            }
        },
        None => None,
    }
}

/// The extension of a Unix path (`Path::extension`).
pub fn extension_of(p: &[char]) -> (r: Option<Vec<char>>)
    ensures
        match r {
            Some(v) => path_extension(p@) == Some(v@),
            None => path_extension(p@) is None,
        },
{
    match file_name_of(p) {
        Some(name) => extension_of_name(name.as_slice()),
        None => None,
    }
}

/// Whether `base` is a whole-component prefix of `path` (`Path::starts_with`).
pub fn starts_with_path(path: &str, base: &str) -> (b: bool)
    ensures
        b == path_starts_with(path@, base@),
{
    let pchars = chars_of(path);
    let bchars = chars_of(base);
    let pc = components_of(pchars.as_slice());
    let bc = components_of(bchars.as_slice());
    let ghost pv = views_of(pc@);
    let ghost bv = views_of(bc@);
    assert(pv.len() == pc@.len() && bv.len() == bc@.len());
    if bc.len() > pc.len() {
        return false;
    }
    let mut i: usize = 0;
    while i < bc.len()
        invariant
            bc@.len() <= pc@.len(),
            pv == views_of(pc@),
            bv == views_of(bc@),
            pv == components(path@),
            bv == components(base@),
            i <= bc@.len(),
            forall|j: int| 0 <= j < i ==> bv[j] == pv[j],
        decreases bc@.len() - i,
    {
        assert(bv[i as int] == bc@[i as int]@);
        assert(pv[i as int] == pc@[i as int]@);
        if !chars_equal(bc[i].as_slice(), pc[i].as_slice()) {
            assert(bv[i as int] == bc@[i as int]@);
            assert(pv[i as int] == pc@[i as int]@);
            assert(bv[i as int] != pv[i as int]);
            assert(pv.subrange(0, bv.len() as int)[i as int] == pv[i as int]);
            return false;
        }
        i += 1;
    }
    assert(bv =~= pv.subrange(0, bv.len() as int));
    true
}

} // verus!

verus! {

/// Extensions (in lower case) of the image files whose text the capture recognises.
pub open spec fn image_extensions() -> Seq<Seq<char>> {
    seq!["png"@, "jpg"@, "jpeg"@, "gif"@, "webp"@, "bmp"@, "heic"@, "heif"@]
}

/// Extensions (in lower case) of the text files whose contents the capture previews.
pub open spec fn text_extensions() -> Seq<Seq<char>> {
    seq![
        "txt"@, "md"@, "json"@, "js"@, "ts"@, "tsx"@, "jsx"@, "rs"@, "py"@, "html"@, "css"@,
        "yml"@, "yaml"@, "xml"@, "log"@, "csv"@, "sql"@, "go"@, "c"@, "cpp"@, "h"@, "hpp"@,
    ]
}

/// Whether the path's extension, lower-cased, is one of `exts`.
pub open spec fn has_extension_in(path: Seq<char>, exts: Seq<Seq<char>>) -> bool {
    match path_extension(path) {
        Some(e) => exts.contains(lowercase_chars(e)),
        None => false,
    }
}

fn extension_in(path: &str, exts: &Vec<&str>, Ghost(spec_exts): Ghost<Seq<Seq<char>>>) -> (b: bool)
    requires
        exts@.len() == spec_exts.len(),
        forall|k: int| 0 <= k < exts@.len() ==> exts@[k]@ == spec_exts[k],
    ensures
        b == has_extension_in(path@, spec_exts),
{
    let p = chars_of(path);
    match extension_of(p.as_slice()) {
        Some(e) => {
            let low = lowercase_vec(e.as_slice());
            let r = equals_any(low.as_slice(), exts);
            assert(r == spec_exts.contains(low@)) by {
                if r {
                    let k = choose|k: int| 0 <= k < exts@.len() && exts@[k]@ == low@;
                    assert(spec_exts[k] == low@);
                }
                if spec_exts.contains(low@) {
                    let k = choose|k: int| 0 <= k < spec_exts.len() && spec_exts[k] == low@;
                    assert(exts@[k]@ == low@);
                }
            }
            r
        },
        None => false,
    }
}

/// Whether a copied path names an image file, judged by its extension
/// (compared without regard to case).
pub fn is_image_file(path: &str) -> (b: bool)
    ensures
        b == has_extension_in(path@, image_extensions()),
{
    let exts = vec!["png", "jpg", "jpeg", "gif", "webp", "bmp", "heic", "heif"];
    extension_in(path, &exts, Ghost(image_extensions()))
}

/// Whether a copied path names a text file whose contents can be previewed,
/// judged by its extension (compared without regard to case).
pub fn is_text_file(path: &str) -> (b: bool)
    ensures
        b == has_extension_in(path@, text_extensions()),
{
    let exts = vec![
        "txt", "md", "json", "js", "ts", "tsx", "jsx", "rs", "py", "html", "css", "yml", "yaml",
        "xml", "log", "csv", "sql", "go", "c", "cpp", "h", "hpp",
    ];
    extension_in(path, &exts, Ghost(text_extensions()))
}

} // verus!

verus! {

/// `base` joined with the relative path `child` (what `Path::join` gives on
/// Unix for a child without a root): a `/` is put between them unless `base`
/// is empty or already ends with one.
pub open spec fn join_path(base: Seq<char>, child: Seq<char>) -> Seq<char> {
    if base.len() == 0 || base.last() == '/' {
        base + child
    } else {
        base + seq!['/'] + child
    }
}

/// `path` with every `from` separator written as `to`: how a Windows path
/// (`\\`) is read as the `/`-separated form these functions take, and how a
/// path built here is written back in Windows form.
pub fn with_separator(path: &str, from: char, to: char) -> (r: String)
    ensures
        r@ == crate::text::replace_char(path@, from, to),
{
    let v = chars_of(path);
    let r = crate::text::replace_char_vec(v.as_slice(), from, to);
    string_from_chars(r.as_slice())
}

/// Joins a relative path onto `base`.
pub fn join(base: &str, child: &str) -> (r: String)
    ensures
        r@ == join_path(base@, child@),
{
    let mut v = chars_of(base);
    if v.len() > 0 && v[v.len() - 1] == '/' {
    } else if v.len() > 0 {
        v.push('/');
    }
    let c = chars_of(child);
    let ghost before = v@;
    crate::text::extend_chars(&mut v, c.as_slice());
    string_from_chars(v.as_slice())
}

/// Joins several relative components in turn.
pub open spec fn join_all(base: Seq<char>, parts: Seq<Seq<char>>) -> Seq<char>
    decreases parts.len(),
{
    if parts.len() == 0 {
        base
    } else {
        join_path(join_all(base, parts.drop_last()), parts.last())
    }
}

/// Joins the components of `parts` onto `base` in turn.
pub fn join_parts(base: &str, parts: &Vec<&str>) -> (r: String)
    ensures
        r@ == join_all(base@, parts@.map_values(|p: &str| p@)),
{
    let mut cur = string_from_chars(chars_of(base).as_slice());
    let mut i: usize = 0;
    let ghost pv = parts@.map_values(|p: &str| p@);
    assert(pv.subrange(0, 0) =~= Seq::<Seq<char>>::empty());
    while i < parts.len()
        invariant
            i <= parts@.len(),
            pv == parts@.map_values(|p: &str| p@),
            cur@ == join_all(base@, pv.subrange(0, i as int)),
        decreases parts@.len() - i,
    {
        assert(pv.subrange(0, i + 1).drop_last() =~= pv.subrange(0, i as int));
        cur = join(cur.as_str(), parts[i]);
        i += 1;
    }
    assert(pv.subrange(0, i as int) =~= pv);
    cur
}

/// The relative locations of the ONNX Runtime library under the executable's directory.
pub open spec fn exe_dll_parts() -> Seq<Seq<Seq<char>>> {
    seq![
        seq!["onnxruntime.dll"@],
        seq!["deps"@, "onnxruntime.dll"@],
        seq!["resources"@, "native"@, "onnxruntime"@, "onnxruntime.dll"@],
    ]
}

/// The relative locations of the ONNX Runtime library under the working directory.
pub open spec fn cwd_dll_parts() -> Seq<Seq<Seq<char>>> {
    seq![
        seq!["onnxruntime.dll"@],
        seq!["target"@, "debug"@, "onnxruntime.dll"@],
        seq!["target"@, "debug"@, "deps"@, "onnxruntime.dll"@],
        seq!["src-tauri"@, "target"@, "debug"@, "onnxruntime.dll"@],
        seq!["src-tauri"@, "target"@, "debug"@, "deps"@, "onnxruntime.dll"@],
        seq!["resources"@, "native"@, "onnxruntime"@, "onnxruntime.dll"@],
        seq!["src-tauri"@, "resources"@, "native"@, "onnxruntime"@, "onnxruntime.dll"@],
    ]
}

/// Each relative location joined onto `base`.
pub open spec fn joined_each(base: Seq<char>, parts: Seq<Seq<Seq<char>>>) -> Seq<Seq<char>> {
    parts.map_values(|p: Seq<Seq<char>>| join_all(base, p))
}

/// The candidate locations of the ONNX Runtime library, in search order.
pub open spec fn dll_candidates(exe_dir: Option<Seq<char>>, cwd: Option<Seq<char>>) -> Seq<Seq<char>> {
    (match exe_dir {
        Some(d) => joined_each(d, exe_dll_parts()),
        None => seq![],
    }) + (match cwd {
        Some(w) => joined_each(w, cwd_dll_parts()),
        None => seq![],
    })
}

fn push_joined(c: &mut Vec<String>, base: &str, parts: Vec<&str>, Ghost(sp): Ghost<Seq<Seq<char>>>)
    requires
        parts@.map_values(|p: &str| p@) == sp,
    ensures
        crate::text::strings_view(final(c)@) == crate::text::strings_view(old(c)@).push(join_all(base@, sp)),
{
    let j = join_parts(base, &parts);
    c.push(j);
    assert(crate::text::strings_view(c@) =~= crate::text::strings_view(old(c)@).push(join_all(base@, sp)));
}

/// Where the ONNX Runtime library is looked for, in order: next to the
/// executable, in its `deps` directory, in its bundled resources, then in the
/// working directory and the usual build output and resource directories under it.
pub fn onnxruntime_dll_candidates(exe_dir: Option<&str>, cwd: Option<&str>) -> (c: Vec<String>)
    ensures
        crate::text::strings_view(c@) == dll_candidates(
            match exe_dir { Some(d) => Some(d@), None => None },
            match cwd { Some(w) => Some(w@), None => None },
        ),
{
    let mut c: Vec<String> = Vec::new();
    let ghost ev = match exe_dir { Some(d) => Some(d@), None => None::<Seq<char>> };
    let ghost wv = match cwd { Some(w) => Some(w@), None => None::<Seq<char>> };
    match exe_dir {
        Some(d) => {
            let p0 = vec!["onnxruntime.dll"];
            let p1 = vec!["deps", "onnxruntime.dll"];
            let p2 = vec!["resources", "native", "onnxruntime", "onnxruntime.dll"];
            let ghost e = exe_dll_parts();
            assert(p0@.map_values(|p: &str| p@) =~= e[0]);
            assert(p1@.map_values(|p: &str| p@) =~= e[1]);
            assert(p2@.map_values(|p: &str| p@) =~= e[2]);
            push_joined(&mut c, d, p0, Ghost(e[0]));
            push_joined(&mut c, d, p1, Ghost(e[1]));
            push_joined(&mut c, d, p2, Ghost(e[2]));
            assert(crate::text::strings_view(c@) =~= joined_each(d@, e));
        },
        None => {
            assert(crate::text::strings_view(c@) =~= Seq::<Seq<char>>::empty());
        },
    }
    let ghost first = crate::text::strings_view(c@);
    match cwd {
        Some(w) => {
            let p0 = vec!["onnxruntime.dll"];
            let p1 = vec!["target", "debug", "onnxruntime.dll"];
            let p2 = vec!["target", "debug", "deps", "onnxruntime.dll"];
            let p3 = vec!["src-tauri", "target", "debug", "onnxruntime.dll"];
            let p4 = vec!["src-tauri", "target", "debug", "deps", "onnxruntime.dll"];
            let p5 = vec!["resources", "native", "onnxruntime", "onnxruntime.dll"];
            let p6 = vec!["src-tauri", "resources", "native", "onnxruntime", "onnxruntime.dll"];
            let ghost e = cwd_dll_parts();
            assert(p0@.map_values(|p: &str| p@) =~= e[0]);
            assert(p1@.map_values(|p: &str| p@) =~= e[1]);
            assert(p2@.map_values(|p: &str| p@) =~= e[2]);
            assert(p3@.map_values(|p: &str| p@) =~= e[3]);
            assert(p4@.map_values(|p: &str| p@) =~= e[4]);
            assert(p5@.map_values(|p: &str| p@) =~= e[5]);
            assert(p6@.map_values(|p: &str| p@) =~= e[6]);
            push_joined(&mut c, w, p0, Ghost(e[0]));
            push_joined(&mut c, w, p1, Ghost(e[1]));
            push_joined(&mut c, w, p2, Ghost(e[2]));
            push_joined(&mut c, w, p3, Ghost(e[3]));
            push_joined(&mut c, w, p4, Ghost(e[4]));
            push_joined(&mut c, w, p5, Ghost(e[5]));
            push_joined(&mut c, w, p6, Ghost(e[6]));
            assert(crate::text::strings_view(c@) =~= first + joined_each(w@, e));
        },
        None => {
            assert(crate::text::strings_view(c@) =~= first + Seq::<Seq<char>>::empty());
        },
    }
    c
}

/// Directory of the text detection model under the OCR model root.
pub const DET_DIR: &'static str = "PP-OCRv6_medium_det_onnx";

/// Directory of the text recognition model under the OCR model root.
pub const REC_DIR: &'static str = "PP-OCRv6_medium_rec_onnx";

/// The files of the OCR models under `root`: the detection model, the
/// recognition model, and the recognition configuration.
pub fn ocr_model_files(root: &str) -> (f: (String, String, String))
    ensures
        f.0@ == join_path(join_path(root@, DET_DIR@), "inference.onnx"@),
        f.1@ == join_path(join_path(root@, REC_DIR@), "inference.onnx"@),
        f.2@ == join_path(join_path(root@, REC_DIR@), "inference.yml"@),
{
    let det = join(join(root, DET_DIR).as_str(), "inference.onnx");
    let rec_dir = join(root, REC_DIR);
    let rec = join(rec_dir.as_str(), "inference.onnx");
    let cfg = join(rec_dir.as_str(), "inference.yml");
    (det, rec, cfg)
}

/// Where the OCR models are looked for under the working directory when no
/// usable root was given: its `src-tauri/resources/models/ocr`, then its `resources/models/ocr`.
pub fn ocr_root_candidates(cwd: &str) -> (c: Vec<String>)
    ensures
        c@.len() == 2,
        c@[0]@ == join_all(cwd@, seq!["src-tauri"@, "resources"@, "models"@, "ocr"@]),
        c@[1]@ == join_all(cwd@, seq!["resources"@, "models"@, "ocr"@]),
{
    let a_parts = vec!["src-tauri", "resources", "models", "ocr"];
    let b_parts = vec!["resources", "models", "ocr"];
    let a = join_parts(cwd, &a_parts);
    let b = join_parts(cwd, &b_parts);
    assert(a_parts@.map_values(|p: &str| p@) =~= seq!["src-tauri"@, "resources"@, "models"@, "ocr"@]);
    assert(b_parts@.map_values(|p: &str| p@) =~= seq!["resources"@, "models"@, "ocr"@]);
    vec![a, b]
}

} // verus!

verus! {

proof fn lemma_segments_split(x: Seq<char>, y: Seq<char>, cur: Seq<char>)
    ensures
        segments_from(x + seq!['/'] + y, cur) == segments_from(x, cur) + segments_from(y, seq![]),
    decreases x.len(),
{
    let s = x + seq!['/'] + y;
    if x.len() == 0 {
        assert(s =~= seq!['/'] + y);
        assert(s.drop_first() =~= y);
    } else {
        assert(s.drop_first() =~= x.drop_first() + seq!['/'] + y);
        assert(s[0] == x[0]);
        if x[0] == '/' {
            lemma_segments_split(x.drop_first(), y, seq![]);
            assert(segments_from(s, cur) =~= keep(cur) + (segments_from(x.drop_first(), seq![]) + segments_from(y, seq![])));
        } else {
            lemma_segments_split(x.drop_first(), y, cur.push(x[0]));
        }
    }
}

proof fn lemma_segments_no_slash(name: Seq<char>, cur: Seq<char>)
    requires
        !name.contains('/'),
    ensures
        segments_from(name, cur) == keep(cur + name),
    decreases name.len(),
{
    if name.len() == 0 {
        assert(cur + name =~= cur);
    } else {
        assert(!name.drop_first().contains('/')) by {
            if name.drop_first().contains('/') {
                let k = choose|k: int| 0 <= k < name.drop_first().len() && name.drop_first()[k] == '/';
                assert(name[k + 1] == '/');
            }
        }
        assert(name[0] != '/');
        lemma_segments_no_slash(name.drop_first(), cur.push(name[0]));
        assert(cur.push(name[0]) + name.drop_first() =~= cur + name);
    }
}

/// A path joined with one more segment stays inside the base path: the base
/// is a whole-component prefix of the result.  (So an image file saved into
/// the images directory is recognised as one of its files when removed.)
pub proof fn law_joined_segment_stays_inside(base: Seq<char>, name: Seq<char>)
    requires
        !name.contains('/'),
    ensures
        path_starts_with(join_path(base, name), base),
{
    let j = join_path(base, name);
    if base.len() == 0 {
        assert(components(base) =~= Seq::<Seq<char>>::empty());
    } else {
        lemma_segments_no_slash(name, seq![]);
        assert(seq![] + name =~= name);
        if base.last() == '/' {
            let x = base.drop_last();
            assert(base =~= x + seq!['/'] + Seq::<char>::empty());
            assert(j =~= x + seq!['/'] + name);
            lemma_segments_split(x, name, seq![]);
            lemma_segments_split(x, Seq::<char>::empty(), seq![]);
            assert(keep(Seq::<char>::empty()) =~= Seq::<Seq<char>>::empty());
            assert(leading_component(j) == leading_component(base)) by {
                assert(j[0] == base[0]);
                if base.len() >= 2 {
                    assert(j[1] == base[1]);
                } else {
                    assert(base[0] == '/');
                }
            }
            assert(segments_from(base, seq![]) =~= segments_from(x, seq![]));
            assert(components(j) =~= components(base) + keep(name));
        } else {
            assert(j =~= base + seq!['/'] + name);
            lemma_segments_split(base, name, seq![]);
            assert(leading_component(j) == leading_component(base)) by {
                assert(j[0] == base[0]);
                if base.len() >= 2 {
                    assert(j[1] == base[1]);
                } else {
                    assert(j[1] == '/');
                }
            }
            assert(components(j) =~= components(base) + keep(name));
        }
        assert(components(base).is_prefix_of(components(j))) by {
            assert(components(j).subrange(0, components(base).len() as int) =~= components(base));
        }
    }
}

/// Every path lies inside itself.
pub proof fn law_starts_with_reflexive(p: Seq<char>)
    ensures
        path_starts_with(p, p),
{
    assert(components(p).subrange(0, components(p).len() as int) =~= components(p));
}


proof fn lemma_last_dot_suffix(a: Seq<char>, e: Seq<char>)
    requires
        !e.contains('.'),
    ensures
        last_dot(a + e) == last_dot(a),
    decreases e.len(),
{
    if e.len() > 0 {
        assert((a + e).drop_last() =~= a + e.drop_last());
        assert((a + e).last() == e.last());
        assert(e.drop_last().len() < e.len());
        assert(!e.drop_last().contains('.')) by {
            if e.drop_last().contains('.') {
                let k = choose|k: int| 0 <= k < e.drop_last().len() && e.drop_last()[k] == '.';
                assert(e[k] == '.');
            }
        }
        assert(e.last() != '.') by {
            assert(e[e.len() - 1] == e.last());
        }
        lemma_last_dot_suffix(a, e.drop_last());
    } else {
        assert(a + e =~= a);
    }
}

/// The extension of a file name `stem.e` with a non-empty stem and a dot-free
/// `e` is `e`.
proof fn lemma_name_extension(stem: Seq<char>, e: Seq<char>)
    requires
        stem.len() > 0,
        !e.contains('.'),
    ensures
        name_extension(stem + seq!['.'] + e) == Some(e),
{
    let with_dot = stem + seq!['.'];
    lemma_last_dot_suffix(with_dot, e);
    assert(with_dot.last() == '.');
    let n = with_dot + e;
    assert(n.subrange(stem.len() + 1int, n.len() as int) =~= e);
}

/// The image files are exactly the paths whose extension, lower-cased, is one
/// of png, jpg, jpeg, gif, webp, bmp, heic and heif.
pub proof fn law_image_files_by_extension(path: Seq<char>)
    ensures
        has_extension_in(path, image_extensions()) <==> (path_extension(path) matches Some(e) && {
            let l = lowercase_chars(e);
            ||| l == "png"@
            ||| l == "jpg"@
            ||| l == "jpeg"@
            ||| l == "gif"@
            ||| l == "webp"@
            ||| l == "bmp"@
            ||| l == "heic"@
            ||| l == "heif"@
        }),
{
    let exts = image_extensions();
    if let Some(e) = path_extension(path) {
        let l = lowercase_chars(e);
        if exts.contains(l) {
            let k = choose|k: int| 0 <= k < exts.len() && exts[k] == l;
        }
        if l == "png"@ { assert(exts[0] == l); }
        if l == "jpg"@ { assert(exts[1] == l); }
        if l == "jpeg"@ { assert(exts[2] == l); }
        if l == "gif"@ { assert(exts[3] == l); }
        if l == "webp"@ { assert(exts[4] == l); }
        if l == "bmp"@ { assert(exts[5] == l); }
        if l == "heic"@ { assert(exts[6] == l); }
        if l == "heif"@ { assert(exts[7] == l); }
    }
}

/// A copied file whose name is `stem.e`, with a non-empty stem and an
/// extension that reads (in any case) png, jpg, jpeg, gif, webp, bmp, heic or
/// heif, is an image file.
pub proof fn law_named_image_is_image(path: Seq<char>, stem: Seq<char>, e: Seq<char>)
    requires
        file_name(path) == Some(stem + seq!['.'] + e),
        stem.len() > 0,
        !e.contains('.'),
        ({
            let l = lowercase_chars(e);
            ||| l == "png"@
            ||| l == "jpg"@
            ||| l == "jpeg"@
            ||| l == "gif"@
            ||| l == "webp"@
            ||| l == "bmp"@
            ||| l == "heic"@
            ||| l == "heif"@
        }),
    ensures
        has_extension_in(path, image_extensions()),
{
    lemma_name_extension(stem, e);
    law_image_files_by_extension(path);
}

/// Whether `l` is one of the extensions of previewable text files.
pub open spec fn is_listed_text_extension(l: Seq<char>) -> bool {
    ||| l == "txt"@
    ||| l == "md"@
    ||| l == "json"@
    ||| l == "js"@
    ||| l == "ts"@
    ||| l == "tsx"@
    ||| l == "jsx"@
    ||| l == "rs"@
    ||| l == "py"@
    ||| l == "html"@
    ||| l == "css"@
    ||| l == "yml"@
    ||| l == "yaml"@
    ||| l == "xml"@
    ||| l == "log"@
    ||| l == "csv"@
    ||| l == "sql"@
    ||| l == "go"@
    ||| l == "c"@
    ||| l == "cpp"@
    ||| l == "h"@
    ||| l == "hpp"@
}

/// The text files are exactly the paths whose extension, lower-cased, is one
/// of txt, md, json, js, ts, tsx, jsx, rs, py, html, css, yml, yaml, xml, log,
/// csv, sql, go, c, cpp, h and hpp.
pub proof fn law_text_files_by_extension(path: Seq<char>)
    ensures
        has_extension_in(path, text_extensions()) <==> (path_extension(path) matches Some(e)
            && is_listed_text_extension(lowercase_chars(e))),
{
    let exts = text_extensions();
    if let Some(e) = path_extension(path) {
        let l = lowercase_chars(e);
        if exts.contains(l) {
            let k = choose|k: int| 0 <= k < exts.len() && exts[k] == l;
        }
        if is_listed_text_extension(l) {
            assert(exists|k: int| 0 <= k < exts.len() && exts[k] == l) by {
                if l == "txt"@ { assert(exts[0] == l); }
                if l == "md"@ { assert(exts[1] == l); }
                if l == "json"@ { assert(exts[2] == l); }
                if l == "js"@ { assert(exts[3] == l); }
                if l == "ts"@ { assert(exts[4] == l); }
                if l == "tsx"@ { assert(exts[5] == l); }
                if l == "jsx"@ { assert(exts[6] == l); }
                if l == "rs"@ { assert(exts[7] == l); }
                if l == "py"@ { assert(exts[8] == l); }
                if l == "html"@ { assert(exts[9] == l); }
                if l == "css"@ { assert(exts[10] == l); }
                if l == "yml"@ { assert(exts[11] == l); }
                if l == "yaml"@ { assert(exts[12] == l); }
                if l == "xml"@ { assert(exts[13] == l); }
                if l == "log"@ { assert(exts[14] == l); }
                if l == "csv"@ { assert(exts[15] == l); }
                if l == "sql"@ { assert(exts[16] == l); }
                if l == "go"@ { assert(exts[17] == l); }
                if l == "c"@ { assert(exts[18] == l); }
                if l == "cpp"@ { assert(exts[19] == l); }
                if l == "h"@ { assert(exts[20] == l); }
                if l == "hpp"@ { assert(exts[21] == l); }
            }
        }
    }
}

/// A copied file whose name is `stem.e`, with a non-empty stem and an
/// extension that reads (in any case) as one of the text extensions, such as
/// txt, is a text file.
pub proof fn law_named_text_file_is_text(path: Seq<char>, stem: Seq<char>, e: Seq<char>)
    requires
        file_name(path) == Some(stem + seq!['.'] + e),
        stem.len() > 0,
        !e.contains('.'),
        is_listed_text_extension(lowercase_chars(e)),
    ensures
        has_extension_in(path, text_extensions()),
{
    lemma_name_extension(stem, e);
    law_text_files_by_extension(path);
}
} // verus!
