//! Post-processing of transcribed text: typographic normalisation to plain
//! ASCII punctuation.

use vstd::prelude::*;

use crate::config::PostConfig;
use crate::text::{chars_of, string_push};

verus! {

broadcast use vstd::seq_lib::group_seq_properties;

/// What one character becomes: dashes become '-', the ellipsis "...",
/// typographic single quotes and the low double quote '\'', the other
/// double quotes and guillemets '"', special spaces ' ', and zero-width
/// space and soft hyphen are dropped. Every other character stays.
pub open spec fn normalized_char(c: char) -> Seq<char> {
    if c == '\u{2014}' || c == '\u{2013}' {
        seq!['-']
    } else if c == '\u{2026}' {
        seq!['.', '.', '.']
    } else if c == '\u{2018}' || c == '\u{2019}' || c == '\u{201E}' {
        seq!['\'']
    } else if c == '\u{201C}' || c == '\u{201D}' || c == '\u{00AB}' || c == '\u{00BB}' {
        seq!['"']
    } else if c == '\u{00A0}' || c == '\u{2009}' || c == '\u{202F}' {
        seq![' ']
    } else if c == '\u{200B}' || c == '\u{00AD}' {
        Seq::empty()
    } else {
        seq![c]
    }
}

/// `s` with every character replaced as `normalized_char` says.
pub open spec fn normalized(s: Seq<char>) -> Seq<char> {
    s.map_values(|c: char| normalized_char(c)).flatten()
}

/// The characters that `normalized_char` changes.
pub open spec fn is_normalized_symbol(c: char) -> bool {
    normalized_char(c) != seq![c]
}

proof fn lemma_normalized_push(s: Seq<char>, c: char)
    ensures
        normalized(s.push(c)) == normalized(s) + normalized_char(c),
{
    let f = |c: char| normalized_char(c);
    assert(s.push(c).map_values(f) =~= s.map_values(f).push(normalized_char(c)));
    s.map_values(f).lemma_flatten_push(normalized_char(c));
}

/// Normalisation output holds none of the characters it replaces.
pub proof fn lemma_normalized_has_no_symbols(s: Seq<char>)
    ensures
        forall|i: int| 0 <= i < normalized(s).len() ==> !is_normalized_symbol(#[trigger] normalized(s)[i]),
    decreases s.len(),
{
    if s.len() > 0 {
        lemma_normalized_has_no_symbols(s.drop_last());
        lemma_normalized_push(s.drop_last(), s.last());
        assert(s.drop_last().push(s.last()) =~= s);
        let a = normalized(s.drop_last());
        let b = normalized_char(s.last());
        assert forall|i: int| 0 <= i < normalized(s).len() implies !is_normalized_symbol(
            #[trigger] normalized(s)[i],
        ) by {
            if i >= a.len() {
                assert(normalized(s)[i] == b[i - a.len()]);
            } else {
                assert(normalized(s)[i] == a[i]);
            }
        }
    } else {
        assert(normalized(s) =~= Seq::<char>::empty());
    }
}

/// The typographic characters the normalisation replaces or drops.
pub open spec fn is_typographic(c: char) -> bool {
    c == '\u{2014}' || c == '\u{2013}' || c == '\u{2026}' || c == '\u{2018}' || c == '\u{2019}'
        || c == '\u{201E}' || c == '\u{201C}' || c == '\u{201D}' || c == '\u{00AB}' || c == '\u{00BB}'
        || c == '\u{00A0}' || c == '\u{2009}' || c == '\u{202F}' || c == '\u{200B}' || c == '\u{00AD}'
}

proof fn lemma_normalized_concat(a: Seq<char>, b: Seq<char>)
    ensures
        normalized(a + b) == normalized(a) + normalized(b),
    decreases b.len(),
{
    if b.len() == 0 {
        assert(a + b =~= a);
        assert(normalized(b) =~= Seq::<char>::empty());
        assert(normalized(a) + normalized(b) =~= normalized(a));
    } else {
        lemma_normalized_concat(a, b.drop_last());
        assert(a + b =~= (a + b.drop_last()).push(b.last()));
        assert(b.drop_last().push(b.last()) =~= b);
        lemma_normalized_push(a + b.drop_last(), b.last());
        lemma_normalized_push(b.drop_last(), b.last());
    }
}

/// What each character becomes wherever it stands: em and en dashes a
/// hyphen, the ellipsis three dots, typographic single quotes an
/// apostrophe, typographic double quotes and guillemets an ASCII double
/// quote, special spaces a plain space; zero-width space and soft hyphen
/// vanish; every other character is kept. The text around it is treated
/// on its own.
pub proof fn lemma_normalized_in_context(a: Seq<char>, c: char, b: Seq<char>)
    ensures
        (c == '\u{2014}' || c == '\u{2013}') ==> normalized(a + seq![c] + b) == normalized(a) + seq!['-']
            + normalized(b),
        c == '\u{2026}' ==> normalized(a + seq![c] + b) == normalized(a) + seq!['.', '.', '.'] + normalized(b),
        (c == '\u{2018}' || c == '\u{2019}' || c == '\u{201E}') ==> normalized(a + seq![c] + b) == normalized(a) + seq!['\''] + normalized(b),
        (c == '\u{201C}' || c == '\u{201D}' || c == '\u{00AB}' || c == '\u{00BB}') ==> normalized(a + seq![c] + b) == normalized(a) + seq!['"'] + normalized(b),
        (c == '\u{00A0}' || c == '\u{2009}' || c == '\u{202F}') ==> normalized(a + seq![c] + b) == normalized(a)
            + seq![' '] + normalized(b),
        (c == '\u{200B}' || c == '\u{00AD}') ==> normalized(a + seq![c] + b) == normalized(a) + normalized(b),
        !is_typographic(c) ==> normalized(a + seq![c] + b) == normalized(a) + seq![c] + normalized(b),
{
    lemma_normalized_concat(a + seq![c], b);
    lemma_normalized_push(a, c);
    assert(a.push(c) =~= a + seq![c]);
    if c == '\u{200B}' || c == '\u{00AD}' {
        assert(normalized(a) + Seq::<char>::empty() =~= normalized(a));
    }
}

/// The output holds none of the typographic characters: no em or en dash,
/// ellipsis, typographic quote, guillemet, special space, zero-width space
/// or soft hyphen.
pub proof fn lemma_normalized_output_plain(s: Seq<char>)
    ensures
        forall|i: int| 0 <= i < normalized(s).len() ==> !is_typographic(#[trigger] normalized(s)[i]),
{
    lemma_normalized_has_no_symbols(s);
    assert forall|i: int| 0 <= i < normalized(s).len() implies !is_typographic(#[trigger] normalized(s)[i]) by {
        let x = normalized(s)[i];
        assert(normalized_char(x) == seq![x]);
        if is_typographic(x) {
            assert(normalized_char(x).len() != 1 || normalized_char(x)[0] != x);
        }
    }
}

/// Text without any replaced character is left as it is.
pub proof fn lemma_normalized_identity(s: Seq<char>)
    requires
        forall|i: int| 0 <= i < s.len() ==> !is_normalized_symbol(#[trigger] s[i]),
    ensures
        normalized(s) == s,
    decreases s.len(),
{
    if s.len() > 0 {
        assert(!is_normalized_symbol(s.last()));
        lemma_normalized_identity(s.drop_last());
        lemma_normalized_push(s.drop_last(), s.last());
        assert(s.drop_last().push(s.last()) =~= s);
    } else {
        assert(normalized(s) =~= s);
    }
}

/// Normalising twice gives the same text as normalising once.
pub proof fn lemma_normalize_idempotent(s: Seq<char>)
    ensures
        normalized(normalized(s)) == normalized(s),
{
    lemma_normalized_has_no_symbols(s);
    lemma_normalized_identity(normalized(s));
}

/// Replaces typographic characters with their plain ASCII counterparts.
pub fn normalize_text(text: &str) -> (out: String)
    ensures
        out@ == normalized(text@),
{
    let chars = chars_of(text);
    let mut out = String::new();
    let mut i: usize = 0;
    while i < chars.len()
        invariant
            i <= chars@.len(),
            chars@ == text@,
            out@ == normalized(chars@.take(i as int)),
        decreases chars@.len() - i,
    {
        let ch = chars[i];
        let ghost before = out@;
        if ch == '\u{2014}' || ch == '\u{2013}' {
            string_push(&mut out, '-');
        } else if ch == '\u{2026}' {
            string_push(&mut out, '.');
            string_push(&mut out, '.');
            string_push(&mut out, '.');
        } else if ch == '\u{2018}' || ch == '\u{2019}' || ch == '\u{201E}' {
            string_push(&mut out, '\'');
        } else if ch == '\u{201C}' || ch == '\u{201D}' || ch == '\u{00AB}' || ch == '\u{00BB}' {
            string_push(&mut out, '"');
        } else if ch == '\u{00A0}' || ch == '\u{2009}' || ch == '\u{202F}' {
            string_push(&mut out, ' ');
        } else if ch == '\u{200B}' || ch == '\u{00AD}' {
        } else {
            string_push(&mut out, ch);
        }
        proof {
            assert(out@ =~= before + normalized_char(ch));
            assert(chars@.take(i + 1) =~= chars@.take(i as int).push(ch));
            lemma_normalized_push(chars@.take(i as int), ch);
        }
        i = i + 1;
    }
    proof {
        assert(chars@.take(chars@.len() as int) =~= chars@);
    }
    out
}

/// Applies the post-processing steps; at present typographic
/// normalisation only.
pub fn postprocess(text: &str, _config: &PostConfig) -> (out: String)
    ensures
        out@ == normalized(text@),
{
    normalize_text(text)
}

/// The text a pipeline hands back at its end: nothing when no engine was
/// ever started or the engine heard nothing, else the engine's text
/// post-processed.
pub fn finalized_text(engine_text: Option<String>, config: &PostConfig) -> (out: String)
    ensures
        engine_text is None ==> out@ == Seq::<char>::empty(),
        engine_text matches Some(t) ==> out@ == if t@.len() == 0 {
            Seq::<char>::empty()
        } else {
            normalized(t@)
        },
{
    match engine_text {
        None => String::new(),
        Some(t) => {
            if t.as_str().is_empty() {
                String::new()
            } else {
                postprocess(t.as_str(), config)
            }
        },
    }
}

} // verus!
