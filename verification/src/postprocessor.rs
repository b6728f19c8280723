//! Post-processing of the first pipeline generation: Unicode to ASCII
//! symbol translation, optional conversion of a spaced hyphen into a double
//! dash, and whitespace clean-up.

use vstd::prelude::*;
use vstd::string::StringExecFns;

use crate::legacy_config::{DeEmdasherConfig, PostConfig};
use crate::text::{
    chars_of, is_white_space, newlines_to_spaces, replace_newlines, str_trim, string_push, trim_ws,
};

verus! {

broadcast use vstd::seq_lib::group_seq_properties;

/// The replacement text of one character: dashes become "-", the ellipsis
/// "...", typographic single quotes "'", double quotes, the low double
/// quote and guillemets "\"", special spaces " ", zero-width space and soft
/// hyphen nothing. Every other character stays.
pub open spec fn symbol_replacement(c: char) -> Seq<char> {
    if c == '\u{2014}' || c == '\u{2013}' {
        seq!['-']
    } else if c == '\u{2026}' {
        seq!['.', '.', '.']
    } else if c == '\u{2018}' || c == '\u{2019}' {
        seq!['\'']
    } else if c == '\u{201C}' || c == '\u{201D}' || c == '\u{201E}' || c == '\u{00AB}' || c
        == '\u{00BB}' {
        seq!['"']
    } else if c == '\u{00A0}' || c == '\u{2009}' || c == '\u{202F}' {
        seq![' ']
    } else if c == '\u{200B}' || c == '\u{00AD}' {
        Seq::empty()
    } else {
        seq![c]
    }
}

/// `s` with every character replaced as `symbol_replacement` says.
pub open spec fn translated(s: Seq<char>) -> Seq<char> {
    s.map_values(|c: char| symbol_replacement(c)).flatten()
}

/// Every white space, hyphen, white space triple, scanning from the left
/// without overlap, with the hyphen doubled: the result of replacing the
/// regex `(\s)-(\s)` by `$1--$2`.
pub open spec fn spaced_hyphens_doubled(s: Seq<char>) -> Seq<char>
    decreases s.len(),
{
    if s.len() >= 3 && is_white_space(s[0]) && s[1] == '-' && is_white_space(s[2]) {
        seq![s[0], '-', '-', s[2]] + spaced_hyphens_doubled(s.skip(3))
    } else if s.len() == 0 {
        Seq::empty()
    } else {
        seq![s[0]] + spaced_hyphens_doubled(s.skip(1))
    }
}

/// Replaces every match of the regex `(\s)-(\s)` in `text` by `$1--$2`.
///
/// Calls `regex::Regex::replace_all`. The contract states regex's
/// documented meaning for this pattern: `\s` is the Unicode `White_Space`
/// class and matches are found leftmost-first without overlap.
#[verifier::external_body]
fn double_spaced_hyphens(text: &str) -> (out: String)
    ensures
        out@ == spaced_hyphens_doubled(text@),
{
    let re = regex::Regex::new(r"(\s)-(\s)").expect("constant pattern");
    re.replace_all(text, "$1--$2").into_owned()
}

proof fn lemma_translated_push(s: Seq<char>, c: char)
    ensures
        translated(s.push(c)) == translated(s) + symbol_replacement(c),
{
    let f = |c: char| symbol_replacement(c);
    assert(s.push(c).map_values(f) =~= s.map_values(f).push(symbol_replacement(c)));
    s.map_values(f).lemma_flatten_push(symbol_replacement(c));
}

/// The characters that `symbol_replacement` changes.
pub open spec fn is_replaced_symbol(c: char) -> bool {
    symbol_replacement(c) != seq![c]
}

/// Translation output holds none of the characters it replaces.
pub proof fn lemma_translated_has_no_symbols(s: Seq<char>)
    ensures
        forall|i: int| 0 <= i < translated(s).len() ==> !is_replaced_symbol(#[trigger] translated(s)[i]),
    decreases s.len(),
{
    if s.len() > 0 {
        lemma_translated_has_no_symbols(s.drop_last());
        lemma_translated_push(s.drop_last(), s.last());
        assert(s.drop_last().push(s.last()) =~= s);
        let a = translated(s.drop_last());
        let b = symbol_replacement(s.last());
        assert forall|i: int| 0 <= i < translated(s).len() implies !is_replaced_symbol(
            #[trigger] translated(s)[i],
        ) by {
            if i >= a.len() {
                assert(translated(s)[i] == b[i - a.len()]);
            } else {
                assert(translated(s)[i] == a[i]);
            }
        }
    } else {
        assert(translated(s) =~= Seq::<char>::empty());
    }
}

/// The typographic characters the normalisation replaces or drops.
pub open spec fn is_typographic(c: char) -> bool {
    c == '\u{2014}' || c == '\u{2013}' || c == '\u{2026}' || c == '\u{2018}' || c == '\u{2019}'
        || c == '\u{201E}' || c == '\u{201C}' || c == '\u{201D}' || c == '\u{00AB}' || c == '\u{00BB}'
        || c == '\u{00A0}' || c == '\u{2009}' || c == '\u{202F}' || c == '\u{200B}' || c == '\u{00AD}'
}

proof fn lemma_translated_concat(a: Seq<char>, b: Seq<char>)
    ensures
        translated(a + b) == translated(a) + translated(b),
    decreases b.len(),
{
    if b.len() == 0 {
        assert(a + b =~= a);
        assert(translated(b) =~= Seq::<char>::empty());
        assert(translated(a) + translated(b) =~= translated(a));
    } else {
        lemma_translated_concat(a, b.drop_last());
        assert(a + b =~= (a + b.drop_last()).push(b.last()));
        assert(b.drop_last().push(b.last()) =~= b);
        lemma_translated_push(a + b.drop_last(), b.last());
        lemma_translated_push(b.drop_last(), b.last());
    }
}

/// What each character becomes wherever it stands: em and en dashes a
/// hyphen, the ellipsis three dots, typographic single quotes an
/// apostrophe, typographic double quotes and guillemets an ASCII double
/// quote, special spaces a plain space; zero-width space and soft hyphen
/// vanish; every other character is kept. The text around it is treated
/// on its own.
pub proof fn lemma_translated_in_context(a: Seq<char>, c: char, b: Seq<char>)
    ensures
        (c == '\u{2014}' || c == '\u{2013}') ==> translated(a + seq![c] + b) == translated(a) + seq!['-']
            + translated(b),
        c == '\u{2026}' ==> translated(a + seq![c] + b) == translated(a) + seq!['.', '.', '.'] + translated(b),
        (c == '\u{2018}' || c == '\u{2019}') ==> translated(a + seq![c] + b) == translated(a) + seq!['\''] + translated(b),
        (c == '\u{201C}' || c == '\u{201D}' || c == '\u{00AB}' || c == '\u{00BB}' || c == '\u{201E}') ==> translated(a + seq![c] + b) == translated(a) + seq!['"'] + translated(b),
        (c == '\u{00A0}' || c == '\u{2009}' || c == '\u{202F}') ==> translated(a + seq![c] + b) == translated(a)
            + seq![' '] + translated(b),
        (c == '\u{200B}' || c == '\u{00AD}') ==> translated(a + seq![c] + b) == translated(a) + translated(b),
        !is_typographic(c) ==> translated(a + seq![c] + b) == translated(a) + seq![c] + translated(b),
{
    lemma_translated_concat(a + seq![c], b);
    lemma_translated_push(a, c);
    assert(a.push(c) =~= a + seq![c]);
    if c == '\u{200B}' || c == '\u{00AD}' {
        assert(translated(a) + Seq::<char>::empty() =~= translated(a));
    }
}

/// The output holds none of the typographic characters: no em or en dash,
/// ellipsis, typographic quote, guillemet, special space, zero-width space
/// or soft hyphen.
pub proof fn lemma_translated_output_plain(s: Seq<char>)
    ensures
        forall|i: int| 0 <= i < translated(s).len() ==> !is_typographic(#[trigger] translated(s)[i]),
{
    lemma_translated_has_no_symbols(s);
    assert forall|i: int| 0 <= i < translated(s).len() implies !is_typographic(#[trigger] translated(s)[i]) by {
        let x = translated(s)[i];
        assert(symbol_replacement(x) == seq![x]);
        if is_typographic(x) {
            assert(symbol_replacement(x).len() != 1 || symbol_replacement(x)[0] != x);
        }
    }
}

/// Text without any replaced character is left as it is.
pub proof fn lemma_translated_identity(s: Seq<char>)
    requires
        forall|i: int| 0 <= i < s.len() ==> !is_replaced_symbol(#[trigger] s[i]),
    ensures
        translated(s) == s,
    decreases s.len(),
{
    if s.len() > 0 {
        assert(!is_replaced_symbol(s.last()));
        lemma_translated_identity(s.drop_last());
        lemma_translated_push(s.drop_last(), s.last());
        assert(s.drop_last().push(s.last()) =~= s);
    } else {
        assert(translated(s) =~= s);
    }
}

/// Translating twice gives the same text as translating once.
pub proof fn lemma_translate_idempotent(s: Seq<char>)
    ensures
        translated(translated(s)) == translated(s),
{
    lemma_translated_has_no_symbols(s);
    lemma_translated_identity(translated(s));
}

/// Replaces typographic Unicode symbols with ASCII.
pub fn translate_symbols(text: &str) -> (out: String)
    ensures
        out@ == translated(text@),
{
    let chars = chars_of(text);
    let mut out = String::new();
    let mut i: usize = 0;
    while i < chars.len()
        invariant
            i <= chars@.len(),
            chars@ == text@,
            out@ == translated(chars@.take(i as int)),
        decreases chars@.len() - i,
    {
        let ch = chars[i];
        let ghost before = out@;
        if ch == '\u{2014}' || ch == '\u{2013}' {
            string_push(&mut out, '-');
        } else if ch == '\u{2026}' {
            string_push(&mut out, '.');
            string_push(&mut out, '.');
            string_push(&mut out, '.');
        } else if ch == '\u{2018}' || ch == '\u{2019}' {
            string_push(&mut out, '\'');
        } else if ch == '\u{201C}' || ch == '\u{201D}' || ch == '\u{201E}' || ch == '\u{00AB}'
            || ch == '\u{00BB}' {
            string_push(&mut out, '"');
        } else if ch == '\u{00A0}' || ch == '\u{2009}' || ch == '\u{202F}' {
            string_push(&mut out, ' ');
        } else if ch == '\u{200B}' || ch == '\u{00AD}' {
        } else {
            string_push(&mut out, ch);
        }
        proof {
            assert(out@ =~= before + symbol_replacement(ch));
            assert(chars@.take(i + 1) =~= chars@.take(i as int).push(ch));
            lemma_translated_push(chars@.take(i as int), ch);
        }
        i = i + 1;
    }
    proof {
        assert(chars@.take(chars@.len() as int) =~= chars@);
    }
    out
}

/// Unicode to ASCII normalisation with optional double-dash conversion.
pub struct DeEmdasher {
    doubledash: bool,
}

impl DeEmdasher {
    /// Whether spaced hyphens are turned into double dashes.
    pub closed spec fn converts_double_dash(&self) -> bool {
        self.doubledash
    }

    /// A processor configured by `config`.
    pub fn new(config: &DeEmdasherConfig) -> (d: Self)
        ensures
            d.converts_double_dash() == config.doubledash,
    {
        DeEmdasher { doubledash: config.doubledash }
    }

    /// A processor that only translates symbols.
    pub fn default() -> (d: Self)
        ensures
            !d.converts_double_dash(),
    {
        DeEmdasher { doubledash: false }
    }

    /// Translates symbols, then, when configured, doubles spaced hyphens.
    pub fn process(&self, text: &str) -> (out: String)
        ensures
            out@ == if self.converts_double_dash() {
                spaced_hyphens_doubled(translated(text@))
            } else {
                translated(text@)
            },
    {
        let out = translate_symbols(text);
        if self.doubledash {
            double_spaced_hyphens(out.as_str())
        } else {
            out
        }
    }
}

/// The text after the enabled post-processing steps: the de-emdasher when
/// configured, then white space trimmed at both ends and line feeds turned
/// into spaces.
pub open spec fn postprocessed(text: Seq<char>, config: PostConfig) -> Seq<char> {
    let t = match config.deemdasher {
        Some(cfg) => if cfg.doubledash {
            spaced_hyphens_doubled(translated(text))
        } else {
            translated(text)
        },
        None => text,
    };
    newlines_to_spaces(trim_ws(t))
}

/// Applies all enabled post-processing steps and returns the final text.
pub fn postprocess(text: &str, config: &PostConfig) -> (out: String)
    ensures
        out@ == postprocessed(text@, *config),
{
    let processed: String = match &config.deemdasher {
        Some(cfg) => DeEmdasher::new(cfg).process(text),
        None => String::from_str(text),
    };
    let trimmed = str_trim(processed.as_str());
    replace_newlines(trimmed)
}

} // verus!
