//! The character-level BERT-style tokenizer that turns search text into the
//! fixed-length id sequence the CLIP text encoder expects.
use vstd::prelude::*;
use vstd::hash_map::StringHashMap;
use crate::text::{
    chars_of, char_is_whitespace, is_unicode_whitespace, lowercase_char, char_lowercase, trim_ws,
    trim_str, strings_view,
};

verus! {

/// The power of two by which `a` must be divided to fit in the 24-bit
/// significand of an `f32` (1 when it already fits).
pub open spec fn f32_scale(a: nat) -> nat
    decreases a,
{
    if a < 0x100_0000 {
        1
    } else {
        2 * f32_scale(a / 2)
    }
}

/// The `f32` nearest to the non-negative integer `a` (ties to the even
/// significand), as an integer.
pub open spec fn round_to_f32(a: nat) -> nat {
    let p = f32_scale(a);
    let q = a / p;
    let r = a % p;
    if p == 1 {
        a
    } else if 2 * r > p || (2 * r == p && q % 2 == 1) {
        (q + 1) * p
    } else {
        q * p
    }
}

/// The value of `x as f32 as i64`: `x` rounded to the nearest `f32`.
pub open spec fn through_f32(x: i32) -> i64 {
    if x >= 0 {
        round_to_f32(x as nat) as i64
    } else {
        (-(round_to_f32((-x) as nat) as int)) as i64
    }
}

proof fn lemma_scale_positive(a: nat)
    ensures
        f32_scale(a) >= 1,
    decreases a,
{
    if a >= 0x100_0000 {
        lemma_scale_positive(a / 2);
    }
}

fn round_magnitude_to_f32(a: u64) -> (r: u64)
    requires
        a <= 0x8000_0000,
    ensures
        r == round_to_f32(a as nat),
        r <= 0x1_0000_0000,
{
    let mut t: u64 = a;
    let mut p: u64 = 1;
    assert(a / 1 == a) by (nonlinear_arith);
    while t >= 0x100_0000
        invariant
            a <= 0x8000_0000,
            1 <= p,
            p == 1 || p * 0x80_0000 <= a,
            t as int == (a as int) / (p as int),
            p * t <= a,
            f32_scale(a as nat) == p * f32_scale(t as nat),
        decreases t,
    {
        assert(p * 0x100_0000 <= a) by (nonlinear_arith)
            requires
                p * t <= a,
                t >= 0x100_0000,
                p >= 1,
        ;
        assert(p <= 128);
        proof {
            vstd::arithmetic::div_mod::lemma_div_denominator(a as int, p as int, 2);
            lemma_scale_positive((t / 2) as nat);
        }
        let ghost old_t = t;
        let ghost old_p = p;
        t = t / 2;
        p = p * 2;
        assert(f32_scale(old_t as nat) == 2 * f32_scale(t as nat));
        assert(f32_scale(a as nat) == p * f32_scale(t as nat)) by (nonlinear_arith)
            requires
                f32_scale(a as nat) == old_p * f32_scale(old_t as nat),
                f32_scale(old_t as nat) == 2 * f32_scale(t as nat),
                p == old_p * 2,
        ;
        assert(p * 0x80_0000 <= a) by (nonlinear_arith)
            requires
                p == old_p * 2,
                old_p * 0x100_0000 <= a,
        ;
        assert(p * t <= a) by (nonlinear_arith)
            requires
                p == old_p * 2,
                t == old_t / 2,
                old_p * old_t <= a,
        ;
    }
    assert(f32_scale(t as nat) == 1);
    assert(f32_scale(a as nat) == p) by (nonlinear_arith)
        requires
            f32_scale(a as nat) == p * f32_scale(t as nat),
            f32_scale(t as nat) == 1,
    ;
    assert(p <= 256) by (nonlinear_arith)
        requires
            p == 1 || p * 0x80_0000 <= a,
            a <= 0x8000_0000,
    ;
    let r_low: u64 = a - p * t;
    proof {
        vstd::arithmetic::div_mod::lemma_fundamental_div_mod(a as int, p as int);
        assert(a as int == (p as int) * (a as int / p as int) + (a as int % p as int));
        assert(r_low == a % p);
        assert(r_low < p) by {
            vstd::arithmetic::div_mod::lemma_mod_pos_bound(a as int, p as int);
        }
    }
    if p == 1 {
        a
    } else if 2 * r_low > p || (2 * r_low == p && t % 2 == 1) {
        assert((t + 1) * p <= 0x1_0000_0000) by (nonlinear_arith)
            requires
                p <= 256,
                t < 0x100_0000,
        ;
        (t + 1) * p
    } else {
        assert(t * p <= a) by (nonlinear_arith)
            requires
                p * t <= a,
        ;
        t * p
    }
}

/// Converts a token id the way `id as f32 as i64` does: ids of magnitude above
/// 2^24 are rounded to the nearest value an `f32` can hold.
pub fn id_through_f32(x: i32) -> (r: i64)
    ensures
        r == through_f32(x),
{
    if x >= 0 {
        round_magnitude_to_f32(x as u64) as i64
    } else {
        let m: i64 = -(x as i64);
        let a = round_magnitude_to_f32(m as u64);
        -(a as i64)
    }
}

} // verus!

verus! {

/// The abstract tokenizer: its vocabulary and its special ids.
pub struct TokenizerModel {
    pub vocab: Map<Seq<char>, i32>,
    pub unk_id: i32,
    pub cls_id: i32,
    pub sep_id: i32,
    pub pad_id: i32,
}

/// The vocabulary read from the lines of a vocabulary file: each trimmed line
/// maps to its line number (a later duplicate wins).
pub open spec fn vocab_of(lines: Seq<Seq<char>>) -> Map<Seq<char>, i32>
    decreases lines.len(),
{
    if lines.len() == 0 {
        Map::empty()
    } else {
        vocab_of(lines.drop_last()).insert(trim_ws(lines.last()), (lines.len() - 1) as i32)
    }
}

/// The id of `key`, or `default` when the vocabulary lacks it.
pub open spec fn id_or(vocab: Map<Seq<char>, i32>, key: Seq<char>, default: i32) -> i32 {
    if vocab.contains_key(key) {
        vocab[key]
    } else {
        default
    }
}

/// The tokenizer built from the lines of a vocabulary file.
pub open spec fn tokenizer_from_lines(lines: Seq<Seq<char>>) -> TokenizerModel {
    let v = vocab_of(lines);
    TokenizerModel {
        vocab: v,
        unk_id: id_or(v, "[UNK]"@, 100),
        cls_id: id_or(v, "[CLS]"@, 101),
        sep_id: id_or(v, "[SEP]"@, 102),
        pad_id: id_or(v, "[PAD]"@, 0),
    }
}

/// The characters of `s` that become tokens: all but whitespace.
pub open spec fn token_chars(s: Seq<char>) -> Seq<char>
    decreases s.len(),
{
    if s.len() == 0 {
        seq![]
    } else if is_unicode_whitespace(s.last()) {
        token_chars(s.drop_last())
    } else {
        token_chars(s.drop_last()).push(s.last())
    }
}

/// How many characters are kept for a sequence of length `max_length`:
/// room for them between the leading `[CLS]` and the closing `[SEP]`, and at least one.
pub open spec fn token_limit(max_length: nat) -> nat {
    if max_length >= 3 {
        (max_length - 2) as nat
    } else {
        1
    }
}

/// The id of one character: its lower-case form looked up, `[UNK]` when absent.
pub open spec fn char_id(m: TokenizerModel, c: char) -> i32 {
    id_or(m.vocab, char_lowercase(c), m.unk_id)
}

/// The ids before conversion: `[CLS]`, the kept characters, `[SEP]`, then `[PAD]`
/// up to `max_length`.
pub open spec fn token_ids(m: TokenizerModel, text: Seq<char>, max_length: nat) -> Seq<i32> {
    let toks = token_chars(text);
    let n = if toks.len() < token_limit(max_length) {
        toks.len()
    } else {
        token_limit(max_length)
    };
    let core = seq![m.cls_id] + toks.take(n as int).map_values(|c: char| char_id(m, c)) + seq![
        m.sep_id,
    ];
    if core.len() < max_length {
        core + Seq::new((max_length - core.len()) as nat, |i: int| m.pad_id)
    } else {
        core
    }
}

/// The sequence `tokenize_to_i64_ids` returns.
pub open spec fn tokenize(m: TokenizerModel, text: Seq<char>, max_length: nat) -> Seq<i64> {
    token_ids(m, text, max_length).map_values(|id: i32| through_f32(id))
}

/// The vocabulary of a text file with one token per line, and the ids of the
/// special tokens `[UNK]`, `[CLS]`, `[SEP]` and `[PAD]`.
pub struct SimpleBertTokenizer {
    vocab: StringHashMap<i32>,
    unk_id: i32,
    cls_id: i32,
    sep_id: i32,
    pad_id: i32,
}

impl View for SimpleBertTokenizer {
    type V = TokenizerModel;

    closed spec fn view(&self) -> TokenizerModel {
        TokenizerModel {
            vocab: self.vocab@,
            unk_id: self.unk_id,
            cls_id: self.cls_id,
            sep_id: self.sep_id,
            pad_id: self.pad_id,
        }
    }
}

proof fn lemma_token_prefix(s: Seq<char>, i: int)
    requires
        0 <= i <= s.len(),
    ensures
        token_chars(s.subrange(0, i)).is_prefix_of(token_chars(s)),
    decreases s.len() - i,
{
    if i == s.len() {
        assert(s.subrange(0, i) =~= s);
    } else {
        lemma_token_prefix(s, i + 1);
        let a = s.subrange(0, i);
        let b = s.subrange(0, i + 1);
        assert(b.drop_last() =~= a);
        let ta = token_chars(a);
        let tb = token_chars(b);
        let ts = token_chars(s);
        assert(ta.is_prefix_of(tb)) by {
            if !is_unicode_whitespace(b.last()) {
                assert(tb.subrange(0, ta.len() as int) =~= ta);
            }
        }
        assert(ta =~= ts.subrange(0, ta.len() as int)) by {
            assert forall|k: int| 0 <= k < ta.len() implies ta[k] == ts[k] by {
                assert(ta[k] == tb[k]);
                assert(tb[k] == ts[k]);
            }
        }
    }
}

fn lookup_or(vocab: &StringHashMap<i32>, key: &str, default: i32) -> (id: i32)
    ensures
        id == id_or(vocab@, key@, default),
{
    match vocab.get(key) {
        Some(v) => *v,
        None => default,
    }
}

impl SimpleBertTokenizer {
    /// Builds the tokenizer from the lines of a vocabulary file: line `i`,
    /// trimmed, is the token with id `i`.
    pub fn from_vocab_lines(lines: &Vec<String>) -> (t: Self)
        ensures
            t@ == tokenizer_from_lines(strings_view(lines@)),
    {
        let mut vocab: StringHashMap<i32> = StringHashMap::new();
        let mut i: usize = 0;
        assert(strings_view(lines@).subrange(0, 0) =~= Seq::<Seq<char>>::empty());
        while i < lines.len()
            invariant
                i <= lines@.len(),
                vocab@ == vocab_of(strings_view(lines@).subrange(0, i as int)),
            decreases lines@.len() - i,
        {
            let token = trim_str(lines[i].as_str());
            vocab.insert(token, i as i32);
            let ghost sv = strings_view(lines@);
            assert(sv.subrange(0, i + 1).drop_last() =~= sv.subrange(0, i as int));
            assert(sv.subrange(0, i + 1).last() == lines@[i as int]@);
            i += 1;
        }
        assert(strings_view(lines@).subrange(0, i as int) =~= strings_view(lines@));
        let unk_id = lookup_or(&vocab, "[UNK]", 100);
        let cls_id = lookup_or(&vocab, "[CLS]", 101);
        let sep_id = lookup_or(&vocab, "[SEP]", 102);
        let pad_id = lookup_or(&vocab, "[PAD]", 0);
        SimpleBertTokenizer { vocab, unk_id, cls_id, sep_id, pad_id }
    }

    /// The vocabulary id of a character's lower-case form, `[UNK]` when absent.
    fn id_of_char(&self, c: char) -> (id: i32)
        ensures
            id == char_id(self@, c),
    {
        let s = lowercase_char(c);
        lookup_or(&self.vocab, s.as_str(), self.unk_id)
    }

    /// Turns `text` into the id sequence the text encoder takes: `[CLS]`, the
    /// id of each non-whitespace character (lower-cased; `[UNK]` when unknown)
    /// while they fit, `[SEP]`, and `[PAD]` up to `max_length`; each id passed
    /// through `f32` and back.  When `max_length` is below 3 one character is still kept.
    pub fn tokenize_to_i64_ids(&self, text: &str, max_length: usize) -> (ids: Vec<i64>)
        requires
            max_length >= 1 || token_chars(text@).len() == 0,
        ensures
            ids@ == tokenize(self@, text@, max_length as nat),
    {
        let chars = chars_of(text);
        let ghost m = self@;
        let ghost limit = token_limit(max_length as nat);
        let mut raw: Vec<i32> = vec![self.cls_id];
        let ghost mut count: nat = 0;
        let mut i: usize = 0;
        assert(chars@.subrange(0, 0) =~= Seq::<char>::empty());
        assert(raw@ =~= seq![m.cls_id] + token_chars(chars@.subrange(0, 0)).map_values(
            |c: char| char_id(m, c),
        ));
        let mut stopped = false;
        while i < chars.len()
            invariant_except_break
                i <= chars@.len(),
                chars@ == text@,
                m == self@,
                limit == token_limit(max_length as nat),
                raw@ == seq![m.cls_id] + token_chars(chars@.subrange(0, i as int)).map_values(
                    |c: char| char_id(m, c),
                ),
                token_chars(chars@.subrange(0, i as int)).len() < limit,
                !stopped,
            ensures
                i <= chars@.len(),
                chars@ == text@,
                m == self@,
                limit == token_limit(max_length as nat),
                raw@ == seq![m.cls_id] + token_chars(chars@.subrange(0, i as int)).map_values(
                    |c: char| char_id(m, c),
                ),
                stopped ==> token_chars(chars@.subrange(0, i as int)).len() == limit,
                !stopped ==> i == chars@.len() && token_chars(chars@.subrange(0, i as int)).len()
                    < limit,
            decreases chars@.len() - i,
        {
            let c = chars[i];
            let ghost before = chars@.subrange(0, i as int);
            let ghost after = chars@.subrange(0, i + 1);
            assert(after.drop_last() =~= before);
            if char_is_whitespace(c) {
                i += 1;
                assert(token_chars(after) == token_chars(before));
                continue;
            }
            let id = self.id_of_char(c);
            raw.push(id);
            i += 1;
            assert(token_chars(after) == token_chars(before).push(c));
            assert(raw@ =~= seq![m.cls_id] + token_chars(after).map_values(|c: char| char_id(m, c)));
            if raw.len() + 1 >= max_length {
                stopped = true;
                break;
            }
        }
        proof {
            lemma_token_prefix(chars@, i as int);
        }
        let ghost toks = token_chars(text@);
        let ghost kept = token_chars(chars@.subrange(0, i as int));
        assert(kept =~= toks.take(kept.len() as int));
        if !stopped {
            assert(chars@.subrange(0, i as int) =~= chars@);
        }
        let ghost n = if toks.len() < limit { toks.len() } else { limit };
        assert(kept.len() == n);
        assert(toks.take(n as int) =~= kept);
        raw.push(self.sep_id);
        while raw.len() < max_length
            invariant
                m == self@,
                raw@.len() >= 2,
                raw@.subrange(0, (kept.len() + 2) as int) == seq![m.cls_id] + kept.map_values(
                    |c: char| char_id(m, c),
                ) + seq![m.sep_id],
                raw@.len() >= kept.len() + 2,
                forall|k: int| kept.len() + 2 <= k < raw@.len() ==> raw@[k] == m.pad_id,
                raw@.len() <= kept.len() + 2 || raw@.len() <= max_length,
            decreases max_length - raw@.len(),
        {
            raw.push(self.pad_id);
        }
        let ghost core = seq![m.cls_id] + kept.map_values(|c: char| char_id(m, c)) + seq![m.sep_id];
        assert(raw@ =~= token_ids(m, text@, max_length as nat)) by {
            assert(core.len() == kept.len() + 2);
            assert(raw@.subrange(0, core.len() as int) =~= core);
            if core.len() < max_length {
                assert(raw@.len() == max_length);
                let pads = Seq::new((max_length - core.len()) as nat, |i: int| m.pad_id);
                assert(raw@ =~= core + pads) by {
                    assert forall|k: int| 0 <= k < raw@.len() implies raw@[k] == (core + pads)[k] by {
                        if k < core.len() {
                            assert(raw@[k] == raw@.subrange(0, core.len() as int)[k]);
                        }
                    }
                }
            } else {
                assert(raw@.len() == core.len());
                assert(raw@ =~= core) by {
                    assert forall|k: int| 0 <= k < raw@.len() implies raw@[k] == core[k] by {
                        assert(raw@[k] == raw@.subrange(0, core.len() as int)[k]);
                    }
                }
            }
        }
        let mut out: Vec<i64> = Vec::new();
        let mut j: usize = 0;
        while j < raw.len()
            invariant
                j <= raw@.len(),
                out@ == raw@.subrange(0, j as int).map_values(|id: i32| through_f32(id)),
            decreases raw@.len() - j,
        {
            out.push(id_through_f32(raw[j]));
            j += 1;
            assert(out@ =~= raw@.subrange(0, j as int).map_values(|id: i32| through_f32(id)));
        }
        assert(raw@.subrange(0, j as int) =~= raw@);
        out
    }
}


/// For a sequence length of at least 3 the id sequence has exactly that length,
/// starts with `[CLS]`, and holds `[SEP]` after the kept characters, whatever the text.
pub proof fn law_tokenized_length_is_fixed(m: TokenizerModel, text: Seq<char>, max_length: nat)
    requires
        max_length >= 3,
    ensures
        tokenize(m, text, max_length).len() == max_length,
        tokenize(m, text, max_length)[0] == through_f32(m.cls_id),
        ({
            let n = if token_chars(text).len() < max_length - 2 {
                token_chars(text).len()
            } else {
                (max_length - 2) as nat
            };
            tokenize(m, text, max_length)[n + 1int] == through_f32(m.sep_id)
        }),
{
    let toks = token_chars(text);
    let n = if toks.len() < token_limit(max_length) { toks.len() } else { token_limit(max_length) };
    let core = seq![m.cls_id] + toks.take(n as int).map_values(|c: char| char_id(m, c)) + seq![
        m.sep_id,
    ];
    assert(core.len() == n + 2);
    assert(core[0] == m.cls_id);
    assert(core[n + 1int] == m.sep_id);
    let ids = token_ids(m, text, max_length);
    assert(ids.len() == max_length);
    assert(ids[0] == m.cls_id);
    assert(ids[n + 1int] == m.sep_id);
}


/// The characters of `s` that are not Unicode whitespace, in order.
pub open spec fn without_whitespace(s: Seq<char>) -> Seq<char> {
    s.filter(|c: char| !is_unicode_whitespace(c))
}

proof fn lemma_token_chars_filter(s: Seq<char>)
    ensures
        token_chars(s) == without_whitespace(s),
    decreases s.len(),
{
    reveal(Seq::filter);
    if s.len() > 0 {
        lemma_token_chars_filter(s.drop_last());
    }
}

proof fn lemma_filter_idempotent(s: Seq<char>)
    ensures
        without_whitespace(without_whitespace(s)) == without_whitespace(s),
    decreases s.len(),
{
    reveal(Seq::filter);
    if s.len() > 0 {
        lemma_filter_idempotent(s.drop_last());
        let f = without_whitespace(s.drop_last());
        if !is_unicode_whitespace(s.last()) {
            assert(f.push(s.last()).drop_last() =~= f);
        }
    }
}

/// No whitespace character becomes a token: the characters that are turned
/// into ids are exactly the text's characters without those with the Unicode
/// `White_Space` property (the ideographic space included), in order, so the
/// ids of a text are those of the same text with its whitespace removed.
pub proof fn law_whitespace_never_becomes_a_token(m: TokenizerModel, text: Seq<char>, max_length: nat)
    ensures
        token_chars(text) == without_whitespace(text),
        forall|k: int| 0 <= k < token_chars(text).len() ==> !is_unicode_whitespace(#[trigger] token_chars(text)[k]),
        forall|k: int|
            0 <= k < text.len() && !is_unicode_whitespace(#[trigger] text[k]) ==> token_chars(text).contains(
                text[k],
            ),
        tokenize(m, text, max_length) == tokenize(m, without_whitespace(text), max_length),
{
    broadcast use vstd::seq_lib::group_filter_ensures;
    lemma_token_chars_filter(text);
    lemma_token_chars_filter(without_whitespace(text));
    lemma_filter_idempotent(text);
    let pred = |c: char| !is_unicode_whitespace(c);
    assert forall|k: int| 0 <= k < token_chars(text).len() implies !is_unicode_whitespace(
        #[trigger] token_chars(text)[k],
    ) by {
        text.lemma_filter_pred(pred, k);
    }
    assert forall|k: int|
        0 <= k < text.len() && !is_unicode_whitespace(#[trigger] text[k]) implies token_chars(text).contains(
            text[k],
        ) by {
        text.lemma_filter_contains(pred, k);
    }
}
} // verus!
