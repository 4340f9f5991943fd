//! The integer and text side of text recognition: neighbour slots, input
//! widths, the layout of the recogniser's output, CTC collapsing, and the
//! character dictionary read from the recogniser's configuration.
use vstd::prelude::*;
use crate::text::{
    chars_of, chars_equal, copy_range, has_prefix, trim_chars, trim_start_chars, trim_ws,
    trim_start_ws, split_lines, lines_of, views_of, string_from_chars, extend_chars, extend_str,
    debug_list, debug_list_chars, decimal, decimal_chars, strings_view,
};

verus! {

/// The four neighbour positions of `(x, y)` in a `w` by `h` grid (left, up,
/// right, down), each coordinate `None` where the neighbour would fall outside.
pub open spec fn spec_neighbor_slots(x: usize, y: usize, w: usize, h: usize) -> Seq<(Option<usize>, Option<usize>)> {
    seq![
        (if x > 0 { Some((x - 1) as usize) } else { None }, Some(y)),
        (Some(x), if y > 0 { Some((y - 1) as usize) } else { None }),
        (if x + 1 < w { Some((x + 1) as usize) } else { None }, Some(y)),
        (Some(x), if y + 1 < h { Some((y + 1) as usize) } else { None }),
    ]
}

/// The neighbour positions of `(x, y)`: left, up, right, down.
pub fn neighbor_slots(x: usize, y: usize, w: usize, h: usize) -> (r: [(Option<usize>, Option<usize>); 4])
    requires
        x < usize::MAX,
        y < usize::MAX,
    ensures
        r@ == spec_neighbor_slots(x, y, w, h),
{
    let left = if x > 0 { Some(x - 1) } else { None };
    let up = if y > 0 { Some(y - 1) } else { None };
    let right = if x + 1 < w { Some(x + 1) } else { None };
    let down = if y + 1 < h { Some(y + 1) } else { None };
    let r = [(left, Some(y)), (Some(x), up), (right, Some(y)), (Some(x), down)];
    assert(r@ =~= spec_neighbor_slots(x, y, w, h));
    r
}

/// `value` rounded up to a multiple of `multiple`.
pub fn round_to_multiple(value: u32, multiple: u32) -> (r: u32)
    requires
        multiple > 0,
        value + multiple <= u32::MAX,
    ensures
        r == ((value + multiple - 1) / multiple as int) * multiple,
        r % multiple == 0,
        value <= r < value + multiple,
{
    let q_exec = (value + multiple - 1) / multiple;
    proof {
        let v = value as int;
        let m = multiple as int;
        let q = (v + m - 1) / m;
        vstd::arithmetic::div_mod::lemma_fundamental_div_mod(v + m - 1, m);
        vstd::arithmetic::div_mod::lemma_mod_pos_bound(v + m - 1, m);
        assert(q * m <= v + m - 1) by (nonlinear_arith)
            requires
                v + m - 1 == m * q + (v + m - 1) % m,
                (v + m - 1) % m >= 0,
        ;
        assert(q * m > v - 1) by (nonlinear_arith)
            requires
                v + m - 1 == m * q + (v + m - 1) % m,
                (v + m - 1) % m < m,
        ;
        vstd::arithmetic::div_mod::lemma_mod_multiples_basic(q, m);
        assert(q_exec == q);
    }
    let r = q_exec * multiple;
    r
}

/// Where the recogniser's scores for time step `t` and class `c` sit in its output.
pub struct CtcLayout {
    /// Number of time steps.
    pub timesteps: usize,
    /// Number of classes: the blank, the dictionary, and possibly a space.
    pub classes: usize,
    /// Whether scores are stored time step by time step (`[.., T, C]`) rather
    /// than class by class (`[1, C, T]`).
    pub step_major: bool,
    /// Whether the last class is a space appended to the dictionary.
    pub with_space: bool,
}

/// The error for an output with fewer than three dimensions.
pub open spec fn bad_rec_shape_message(shape: Seq<usize>) -> Seq<char> {
    "Unexpected recognition output shape: "@ + debug_list(shape)
}

/// The error for an output whose class count fits neither the dictionary
/// nor the dictionary plus a space.
pub open spec fn class_mismatch_message(shape: Seq<usize>, dict_len: nat) -> Seq<char> {
    "Recognition output classes do not match dictionary: shape="@ + debug_list(shape) + ", dict="@
        + decimal(dict_len)
}

/// How a recogniser output of the given shape is laid out for a dictionary of
/// `d` characters: the class axis is the last one when its size is `d + 1` or
/// `d + 2`, otherwise the second one when that fits.
pub open spec fn spec_ctc_layout(shape: Seq<usize>, d: nat) -> Result<CtcLayout, Seq<char>> {
    if shape.len() < 3 {
        Err(bad_rec_shape_message(shape))
    } else if shape.last() == d + 1 || shape.last() == d + 2 {
        Ok(
            CtcLayout {
                timesteps: shape[shape.len() - 2],
                classes: shape.last(),
                step_major: true,
                with_space: shape.last() == d + 2,
            },
        )
    } else if shape[1] == d + 1 || shape[1] == d + 2 {
        Ok(CtcLayout { timesteps: shape[2], classes: shape[1], step_major: false, with_space: shape[1] == d + 2 })
    } else {
        Err(class_mismatch_message(shape, d))
    }
}

/// Works out the layout of a recogniser output, or the error the recogniser reports.
pub fn ctc_layout(shape: &[usize], dict_len: usize) -> (r: Result<CtcLayout, String>)
    requires
        dict_len + 2 <= usize::MAX,
    ensures
        match (r, spec_ctc_layout(shape@, dict_len as nat)) {
            (Ok(a), Ok(b)) => a == b,
            (Err(e), Err(m)) => e@ == m,
            _ => false,
        },
{
    if shape.len() < 3 {
        let mut msg: Vec<char> = Vec::new();
        extend_str(&mut msg, "Unexpected recognition output shape: ");
        let d = debug_list_chars(shape);
        extend_chars(&mut msg, d.as_slice());
        return Err(string_from_chars(msg.as_slice()));
    }
    let last = shape[shape.len() - 1];
    if last == dict_len + 1 || last == dict_len + 2 {
        Ok(CtcLayout { timesteps: shape[shape.len() - 2], classes: last, step_major: true, with_space: last == dict_len + 2 })
    } else if shape[1] == dict_len + 1 || shape[1] == dict_len + 2 {
        Ok(CtcLayout { timesteps: shape[2], classes: shape[1], step_major: false, with_space: shape[1] == dict_len + 2 })
    } else {
        let mut msg: Vec<char> = Vec::new();
        extend_str(&mut msg, "Recognition output classes do not match dictionary: shape=");
        let d = debug_list_chars(shape);
        extend_chars(&mut msg, d.as_slice());
        extend_str(&mut msg, ", dict=");
        let n = decimal_chars(dict_len);
        extend_chars(&mut msg, n.as_slice());
        Err(string_from_chars(msg.as_slice()))
    }
}

/// Position of the score for time step `step` and class `class`.
pub open spec fn spec_ctc_index(l: CtcLayout, step: int, class: int) -> int {
    if l.step_major {
        step * l.classes + class
    } else {
        class * l.timesteps + step
    }
}

impl CtcLayout {
    /// Position of the score for time step `step` and class `class`.
    pub fn index(&self, step: usize, class: usize) -> (i: usize)
        requires
            spec_ctc_index(*self, step as int, class as int) <= usize::MAX,
        ensures
            i == spec_ctc_index(*self, step as int, class as int),
    {
        if self.step_major {
            step * self.classes + class
        } else {
            class * self.timesteps + step
        }
    }
}

/// The dictionary the decoder reads: the characters, plus a space when the
/// output has a class for it.
pub open spec fn decode_dict(dict: Seq<Seq<char>>, with_space: bool) -> Seq<Seq<char>> {
    if with_space {
        dict.push(seq![' '])
    } else {
        dict
    }
}

/// CTC collapsing of the best class per time step: class 0 is the blank, a
/// class repeated on consecutive steps counts once, and class `c` stands for
/// entry `c - 1` of the dictionary.
pub open spec fn ctc_text(ids: Seq<usize>, dict: Seq<Seq<char>>) -> Seq<char>
    decreases ids.len(),
{
    if ids.len() == 0 {
        seq![]
    } else {
        let id = ids.last();
        let prev = if ids.len() >= 2 { ids[ids.len() - 2] } else { 0 };
        ctc_text(ids.drop_last(), dict) + if id != 0 && id != prev && id - 1 < dict.len() {
            dict[id - 1]
        } else {
            seq![]
        }
    }
}

/// Collapses the best class of each time step into text.
pub fn ctc_collapse(best_ids: &[usize], dict: &Vec<String>, with_space: bool) -> (text: String)
    ensures
        text@ == ctc_text(best_ids@, decode_dict(strings_view(dict@), with_space)),
{
    let ghost dd = decode_dict(strings_view(dict@), with_space);
    let dict_len = dict.len();
    let mut out: Vec<char> = Vec::new();
    let mut last_id: usize = 0;
    let mut t: usize = 0;
    assert(best_ids@.subrange(0, 0) =~= Seq::<usize>::empty());
    while t < best_ids.len()
        invariant
            t <= best_ids@.len(),
            dd == decode_dict(strings_view(dict@), with_space),
            dict_len == dict@.len(),
            out@ == ctc_text(best_ids@.subrange(0, t as int), dd),
            last_id == if t > 0 { best_ids@[t - 1] } else { 0 },
        decreases best_ids@.len() - t,
    {
        let id = best_ids[t];
        let ghost pre = best_ids@.subrange(0, t + 1);
        assert(pre.drop_last() =~= best_ids@.subrange(0, t as int));
        if id != 0 && id != last_id {
            if id - 1 < dict_len {
                let s = chars_of(dict[id - 1].as_str());
                extend_chars(&mut out, s.as_slice());
            } else if with_space && id - 1 == dict_len {
                out.push(' ');
                assert(seq![' '] =~= dd[id - 1]);
            }
        }
        assert(out@ =~= ctc_text(pre, dd));
        last_id = id;
        t += 1;
    }
    assert(best_ids@.subrange(0, t as int) =~= best_ids@);
    string_from_chars(out.as_slice())
}

/// The recognised lines that are kept for the page text: each one trimmed,
/// the empty ones dropped.
pub open spec fn kept_lines(lines: Seq<Seq<char>>) -> Seq<Seq<char>>
    decreases lines.len(),
{
    if lines.len() == 0 {
        seq![]
    } else {
        let rest = kept_lines(lines.drop_last());
        let t = trim_ws(lines.last());
        if t.len() > 0 {
            rest.push(t)
        } else {
            rest
        }
    }
}

/// The parts joined with a newline between each two.
pub open spec fn newline_joined(parts: Seq<Seq<char>>) -> Seq<char>
    decreases parts.len(),
{
    if parts.len() == 0 {
        seq![]
    } else if parts.len() == 1 {
        parts[0]
    } else {
        newline_joined(parts.drop_last()) + seq!['\n'] + parts.last()
    }
}

/// The text of a page from its recognised lines, in reading order: each line
/// trimmed, empty lines dropped, one line per row of text.
pub fn page_text(lines: &Vec<String>) -> (text: String)
    ensures
        text@ == newline_joined(kept_lines(strings_view(lines@))),
{
    let ghost lv = strings_view(lines@);
    let mut out: Vec<char> = Vec::new();
    let mut any = false;
    let mut i: usize = 0;
    assert(lv.subrange(0, 0) =~= Seq::<Seq<char>>::empty());
    while i < lines.len()
        invariant
            i <= lines@.len(),
            lv == strings_view(lines@),
            out@ == newline_joined(kept_lines(lv.subrange(0, i as int))),
            any == (kept_lines(lv.subrange(0, i as int)).len() > 0),
        decreases lines@.len() - i,
    {
        let ghost pre = lv.subrange(0, i as int);
        let ghost next = lv.subrange(0, i + 1);
        assert(next.drop_last() =~= pre);
        assert(next.last() == lines@[i as int]@);
        let t = chars_of(lines[i].as_str());
        let trimmed = trim_chars(t.as_slice());
        if trimmed.len() > 0 {
            if any {
                out.push('\n');
            }
            extend_chars(&mut out, trimmed.as_slice());
            any = true;
            proof {
                let k = kept_lines(next);
                assert(k == kept_lines(pre).push(trimmed@));
                assert(k.drop_last() =~= kept_lines(pre));
                if kept_lines(pre).len() == 0 {
                    assert(k.len() == 1);
                    assert(out@ =~= k[0]);
                }
            }
        }
        i += 1;
    }
    assert(lv.subrange(0, i as int) =~= lv);
    string_from_chars(out.as_slice())
}

/// `raw` with each doubled single quote `''` read as one quote, scanning left to right.
pub open spec fn collapse_quotes(s: Seq<char>) -> Seq<char>
    decreases s.len(),
{
    if s.len() == 0 {
        seq![]
    } else if s.len() >= 2 && s[0] == '\'' && s[1] == '\'' {
        seq!['\''] + collapse_quotes(s.subrange(2, s.len() as int))
    } else {
        seq![s[0]] + collapse_quotes(s.drop_first())
    }
}

/// A YAML scalar as the dictionary holds it: a single-quoted scalar loses its
/// quotes and has its doubled quotes undone; `''''` is one quote.
pub open spec fn spec_unquote(raw: Seq<char>) -> Seq<char> {
    if raw == "''''"@ {
        "'"@
    } else if raw.len() >= 2 && raw[0] == '\'' && raw.last() == '\'' {
        collapse_quotes(raw.subrange(1, raw.len() - 1))
    } else {
        raw
    }
}

fn collapse_quotes_vec(v: &[char], lo: usize, hi: usize) -> (r: Vec<char>)
    requires
        lo <= hi <= v@.len(),
    ensures
        r@ == collapse_quotes(v@.subrange(lo as int, hi as int)),
{
    let mut out: Vec<char> = Vec::new();
    let mut i = lo;
    while i < hi
        invariant
            lo <= i <= hi <= v@.len(),
            collapse_quotes(v@.subrange(lo as int, hi as int)) == out@ + collapse_quotes(
                v@.subrange(i as int, hi as int),
            ),
        decreases hi - i,
    {
        let ghost rest = v@.subrange(i as int, hi as int);
        if i + 1 < hi && v[i] == '\'' && v[i + 1] == '\'' {
            assert(rest.subrange(2, rest.len() as int) =~= v@.subrange(i + 2, hi as int));
            out.push('\'');
            i += 2;
        } else {
            assert(rest.drop_first() =~= v@.subrange(i + 1, hi as int));
            out.push(v[i]);
            i += 1;
        }
    }
    assert(v@.subrange(i as int, hi as int) =~= Seq::<char>::empty());
    assert(out@ =~= out@ + Seq::<char>::empty());
    out
}

fn unquote_chars(raw: &[char]) -> (r: Vec<char>)
    ensures
        r@ == spec_unquote(raw@),
{
    let four = chars_of("''''");
    if chars_equal(raw, four.as_slice()) {
        return chars_of("'");
    }
    if raw.len() >= 2 && raw[0] == '\'' && raw[raw.len() - 1] == '\'' {
        collapse_quotes_vec(raw, 1, raw.len() - 1)
    } else {
        copy_range(raw, 0, raw.len())
    }
}

/// Reads one dictionary entry: a single-quoted YAML scalar is unquoted and
/// its doubled quotes undone; `''''` stands for a single quote.
pub fn unquote_yaml_scalar(raw: &str) -> (r: String)
    ensures
        r@ == spec_unquote(raw@),
{
    let v = chars_of(raw);
    let u = unquote_chars(v.as_slice());
    assert(v@.subrange(0, v@.len() as int) =~= v@);
    string_from_chars(u.as_slice())
}

/// Whether `t` begins with `- `.
pub open spec fn starts_with_item_marker(t: Seq<char>) -> bool {
    t.len() >= 2 && t[0] == '-' && t[1] == ' '
}

/// `t` with every leading `- ` removed (what `trim_start_matches("- ")` gives).
pub open spec fn strip_item_markers(t: Seq<char>) -> Seq<char>
    decreases t.len(),
{
    if starts_with_item_marker(t) {
        strip_item_markers(t.subrange(2, t.len() as int))
    } else {
        t
    }
}

/// The dictionary entries found in `lines`: after a `character_dict:` line,
/// each `- ` item is one entry, indented or blank lines are passed over, and
/// the first other unindented line ends the list.
pub open spec fn dict_entries(lines: Seq<Seq<char>>, in_dict: bool) -> Seq<Seq<char>>
    decreases lines.len(),
{
    if lines.len() == 0 {
        seq![]
    } else {
        let line = lines[0];
        let t = trim_start_ws(line);
        let rest = lines.drop_first();
        if t == "character_dict:"@ {
            dict_entries(rest, true)
        } else if !in_dict {
            dict_entries(rest, false)
        } else if !starts_with_item_marker(t) {
            if t.len() > 0 && !(line.len() > 0 && line[0] == ' ') {
                seq![]
            } else {
                dict_entries(rest, true)
            }
        } else {
            seq![spec_unquote(trim_ws(strip_item_markers(t)))] + dict_entries(rest, true)
        }
    }
}

/// The dictionary read from a recogniser configuration, or the error for an empty one.
pub open spec fn spec_character_dict(content: Seq<char>) -> Result<Seq<Seq<char>>, Seq<char>> {
    let entries = dict_entries(lines_of(content), false);
    if entries.len() == 0 {
        Err("OCR character dictionary is empty"@)
    } else {
        Ok(entries)
    }
}

fn strip_item_markers_vec(t: &[char]) -> (r: Vec<char>)
    ensures
        r@ == strip_item_markers(t@),
{
    let mut i: usize = 0;
    assert(t@.subrange(0, t@.len() as int) =~= t@);
    while i < t.len() && i + 1 < t.len() && t[i] == '-' && t[i + 1] == ' '
        invariant
            i <= t@.len(),
            strip_item_markers(t@) == strip_item_markers(t@.subrange(i as int, t@.len() as int)),
        decreases t@.len() - i,
    {
        let ghost cur = t@.subrange(i as int, t@.len() as int);
        assert(cur.subrange(2, cur.len() as int) =~= t@.subrange(i + 2, t@.len() as int));
        i += 2;
    }
    copy_range(t, i, t.len())
}

/// Reads the character dictionary out of the text of a recogniser's YAML
/// configuration (the `character_dict:` list).
pub fn parse_character_dict(content: &str) -> (r: Result<Vec<String>, String>)
    ensures
        match (r, spec_character_dict(content@)) {
            (Ok(v), Ok(s)) => strings_view(v@) == s,
            (Err(e), Err(m)) => e@ == m,
            _ => false,
        },
{
    let chars = chars_of(content);
    let lines = split_lines(chars.as_slice());
    let ghost lv = views_of(lines@);
    let key = chars_of("character_dict:");
    let mut in_dict = false;
    let mut out: Vec<String> = Vec::new();
    let mut i: usize = 0;
    assert(lv.subrange(0, lv.len() as int) =~= lv);
    while i < lines.len()
        invariant
            i <= lines@.len(),
            lv == views_of(lines@),
            lv == lines_of(content@),
            key@ == "character_dict:"@,
            dict_entries(lv, false) == strings_view(out@) + dict_entries(
                lv.subrange(i as int, lv.len() as int),
                in_dict,
            ),
        ensures
            dict_entries(lv, false) =~= strings_view(out@),
        decreases lines@.len() - i,
    {
        let ghost rest = lv.subrange(i as int, lv.len() as int);
        assert(rest.drop_first() =~= lv.subrange(i + 1, lv.len() as int));
        assert(rest[0] == lines@[i as int]@);
        let line = &lines[i];
        let trimmed = trim_start_chars(line.as_slice());
        if chars_equal(trimmed.as_slice(), key.as_slice()) {
            in_dict = true;
            i += 1;
            continue;
        }
        if !in_dict {
            i += 1;
            continue;
        }
        if !(trimmed.len() >= 2 && trimmed[0] == '-' && trimmed[1] == ' ') {
            if trimmed.len() > 0 && !(line.len() > 0 && line[0] == ' ') {
                assert(dict_entries(rest, in_dict) =~= Seq::<Seq<char>>::empty());
                break;
            }
            i += 1;
            continue;
        }
        let stripped = strip_item_markers_vec(trimmed.as_slice());
        let entry = trim_chars(stripped.as_slice());
        let u = unquote_chars(entry.as_slice());
        let ghost before = strings_view(out@);
        out.push(string_from_chars(u.as_slice()));
        assert(strings_view(out@) =~= before.push(u@));
        i += 1;
    }
    if out.len() == 0 {
        Err(string_from_chars(chars_of("OCR character dictionary is empty").as_slice()))
    } else {
        Ok(out)
    }
}

/// `s` with each single quote doubled, as YAML writes it inside single quotes.
pub open spec fn double_quotes(s: Seq<char>) -> Seq<char>
    decreases s.len(),
{
    if s.len() == 0 {
        seq![]
    } else if s[0] == '\'' {
        seq!['\'', '\''] + double_quotes(s.drop_first())
    } else {
        seq![s[0]] + double_quotes(s.drop_first())
    }
}

proof fn lemma_collapse_double(s: Seq<char>)
    ensures
        collapse_quotes(double_quotes(s)) == s,
    decreases s.len(),
{
    if s.len() > 0 {
        lemma_collapse_double(s.drop_first());
        let d = double_quotes(s);
        let rest = double_quotes(s.drop_first());
        if s[0] == '\'' {
            assert(d.subrange(2, d.len() as int) =~= rest);
        } else {
            assert(d.drop_first() =~= rest);
        }
        assert(s =~= seq![s[0]] + s.drop_first());
    }
}

/// Reading a dictionary entry undoes YAML single quoting: any text, quoted
/// and with its quotes doubled, reads back as itself.
pub proof fn law_unquote_inverts_quoting(s: Seq<char>)
    ensures
        spec_unquote(seq!['\''] + double_quotes(s) + seq!['\'']) == s,
{
    let q = seq!['\''] + double_quotes(s) + seq!['\''];
    lemma_collapse_double(s);
    assert(q.subrange(1, q.len() - 1) =~= double_quotes(s));
    if q == "''''"@ {
        reveal_strlit("''''");
        reveal_strlit("'");
        assert(double_quotes(s) =~= seq!['\'', '\'']);
        assert(collapse_quotes(seq!['\'', '\'']) =~= seq!['\'']) by {
            let e = seq!['\'', '\''];
            assert(e.len() >= 2 && e[0] == '\'' && e[1] == '\'');
            assert(e.subrange(2, 2) =~= Seq::<char>::empty());
            assert(collapse_quotes(Seq::<char>::empty()) =~= Seq::<char>::empty());
        }
        assert(s =~= "'"@);
    }
}

/// A class repeated on consecutive time steps is read once: repeating the last
/// step's class adds nothing to the text.
pub proof fn law_ctc_repeat_collapses(ids: Seq<usize>, dict: Seq<Seq<char>>)
    requires
        ids.len() > 0,
    ensures
        ctc_text(ids.push(ids.last()), dict) == ctc_text(ids, dict),
{
    let p = ids.push(ids.last());
    assert(p.drop_last() =~= ids);
    assert(p[p.len() - 2] == ids.last());
    assert(ctc_text(ids, dict) + Seq::<char>::empty() =~= ctc_text(ids, dict));
}

/// The blank class produces no text.
pub proof fn law_ctc_blank_is_silent(ids: Seq<usize>, dict: Seq<Seq<char>>)
    ensures
        ctc_text(ids.push(0usize), dict) == ctc_text(ids, dict),
{
    let p = ids.push(0usize);
    assert(p.drop_last() =~= ids);
    assert(ctc_text(ids, dict) + Seq::<char>::empty() =~= ctc_text(ids, dict));
}

} // verus!
