//! Machine translation of participants' phrases in batches: which texts are sent, in
//! what order, and which row of the answer gives each phrase its translation.

use vstd::prelude::*;

use crate::lang::{translation_codes, translation_direction};
use crate::survey::RawExperience;
use crate::text::{chars_of, normalize_phrase, phrase_form, string_of};

verus! {

/// The non-empty texts of `v`, in order.
pub open spec fn nonempty_texts(v: Seq<String>) -> Seq<Seq<char>>
    decreases v.len(),
{
    if v.len() == 0 {
        Seq::empty()
    } else {
        nonempty_texts(v.drop_last()) + (if v.last()@.len() > 0 { seq![v.last()@] } else { Seq::empty() })
    }
}

/// The texts sent for one experience: its node name, then its non-empty statements.
pub open spec fn experience_batch(e: RawExperience) -> Seq<Seq<char>> {
    seq![e.node_name@] + nonempty_texts(e.statements@)
}

/// The texts sent for a list of experiences, experience after experience.
pub open spec fn batch(es: Seq<RawExperience>) -> Seq<Seq<char>>
    decreases es.len(),
{
    if es.len() == 0 {
        Seq::empty()
    } else {
        batch(es.drop_last()) + experience_batch(es.last())
    }
}

/// The rows read back for one experience whose first row is `start`: the node name's
/// phrase takes `start`, the statements' phrases the rows after it.
pub open spec fn experience_rows(e: RawExperience, start: int) -> Seq<(i32, int)> {
    seq![(e.name_id, start)] + Seq::new(e.phrase_ids@.len(), |k: int| (e.phrase_ids@[k], start + 1 + k))
}

/// The rows read back for a list of experiences, counted on from one experience to
/// the next.
pub open spec fn batch_rows(es: Seq<RawExperience>) -> Seq<(i32, int)>
    decreases es.len(),
{
    if es.len() == 0 {
        Seq::empty()
    } else {
        let before = batch_rows(es.drop_last());
        before + experience_rows(es.last(), before.len() as int)
    }
}

/// Each phrase with its own text: the node name's phrase and name, then each
/// statement's phrase and statement.
pub open spec fn phrase_sources(es: Seq<RawExperience>) -> Seq<(i32, Seq<char>)>
    decreases es.len(),
{
    if es.len() == 0 {
        Seq::empty()
    } else {
        let e = es.last();
        phrase_sources(es.drop_last()) + seq![(e.name_id, e.node_name@)] + Seq::new(
            e.phrase_ids@.len(),
            |k: int| (e.phrase_ids@[k], e.statements@[k]@),
        )
    }
}

/// Whether every statement of `e` has text and a phrase of its own.
pub open spec fn aligned(e: RawExperience) -> bool {
    &&& e.phrase_ids@.len() == e.statements@.len()
    &&& forall|k: int| 0 <= k < e.statements@.len() ==> (#[trigger] e.statements@[k])@.len() > 0
}

/// The view of a list of rows.
pub open spec fn rows_view(v: Seq<(i32, usize)>) -> Seq<(i32, int)> {
    v.map_values(|r: (i32, usize)| (r.0, r.1 as int))
}

/// The texts of a list of strings.
pub open spec fn batch_texts(v: Seq<String>) -> Seq<Seq<char>> {
    v.map_values(|s: String| s@)
}

/// Appends the non-empty strings of `v` to `out`.
fn push_nonempty(out: &mut Vec<String>, v: &Vec<String>)
    ensures
        batch_texts(final(out)@) == batch_texts(old(out)@) + nonempty_texts(v@),
{
    let ghost start = batch_texts(out@);
    let mut i: usize = 0;
    while i < v.len()
        invariant
            i <= v.len(),
            batch_texts(out@) == start + nonempty_texts(v@.subrange(0, i as int)),
        decreases v.len() - i,
    {
        let ghost before = out@;
        assert(v@.subrange(0, i + 1).drop_last() =~= v@.subrange(0, i as int));
        if v[i].unicode_len() > 0 {
            out.push(v[i].clone());
            assert(batch_texts(out@) =~= batch_texts(before).push(v@[i as int]@));
            assert(batch_texts(out@) =~= start + nonempty_texts(v@.subrange(0, i + 1)));
        } else {
            assert(batch_texts(out@) =~= start + nonempty_texts(v@.subrange(0, i + 1)));
        }
        i = i + 1;
    }
    assert(v@.subrange(0, i as int) =~= v@);
}

/// The texts to send for `es`: each experience's node name, then its non-empty
/// statements.
pub fn translation_batch(es: &Vec<RawExperience>) -> (v: Vec<String>)
    ensures
        batch_texts(v@) == batch(es@),
{
    let mut v: Vec<String> = Vec::new();
    let mut i: usize = 0;
    while i < es.len()
        invariant
            i <= es.len(),
            batch_texts(v@) == batch(es@.subrange(0, i as int)),
        decreases es.len() - i,
    {
        let ghost before = v@;
        v.push(es[i].node_name.clone());
        assert(batch_texts(v@) =~= batch_texts(before) + seq![es@[i as int].node_name@]);
        push_nonempty(&mut v, &es[i].statements);
        assert(es@.subrange(0, i + 1).drop_last() =~= es@.subrange(0, i as int));
        assert(batch_texts(v@) =~= batch(es@.subrange(0, i + 1)));
        i = i + 1;
    }
    assert(es@.subrange(0, i as int) =~= es@);
    v
}

/// The row of the answer that each phrase of `es` receives, in the order the phrases
/// come: the node name's phrase, then the statements' phrases, experience after
/// experience.
pub fn translation_rows(es: &Vec<RawExperience>) -> (rows: Vec<(i32, usize)>)
    ensures
        rows_view(rows@) == batch_rows(es@),
{
    let mut rows: Vec<(i32, usize)> = Vec::new();
    let mut i: usize = 0;
    while i < es.len()
        invariant
            i <= es.len(),
            rows_view(rows@) == batch_rows(es@.subrange(0, i as int)),
        decreases es.len() - i,
    {
        let e = &es[i];
        let ghost start = rows_view(rows@);
        let ghost first = rows.len() as int;
        rows.push((e.name_id, rows.len()));
        assert(rows_view(rows@) =~= start + seq![(e.name_id, first)]);
        assert(start + seq![(e.name_id, first)] =~= start + seq![(e.name_id, first)] + Seq::new(0 as nat, |j: int| (e.phrase_ids@[j], first + 1 + j)));
        let mut k: usize = 0;
        while k < e.phrase_ids.len()
            invariant
                k <= e.phrase_ids.len(),
                first == start.len(),
                rows.len() == first + 1 + k,
                rows_view(rows@) == start + seq![(e.name_id, first)] + Seq::new(k as nat, |j: int| (e.phrase_ids@[j], first + 1 + j)),
            decreases e.phrase_ids.len() - k,
        {
            let ghost before = rows@;
            assert(rows.len() == first + 1 + k);
            rows.push((e.phrase_ids[k], rows.len()));
            assert(rows_view(rows@) =~= rows_view(before).push((e.phrase_ids@[k as int], first + 1 + k)));
            k = k + 1;
            assert(start + seq![(e.name_id, first)] + Seq::new(k as nat, |j: int| (e.phrase_ids@[j], first + 1 + j)) =~= (start
                + seq![(e.name_id, first)] + Seq::new((k - 1) as nat, |j: int| (e.phrase_ids@[j], first + 1 + j))).push(
                (e.phrase_ids@[k - 1], first + 1 + (k - 1)),
            ));
        }
        assert(es@.subrange(0, i + 1).drop_last() =~= es@.subrange(0, i as int));
        assert(es@.subrange(0, i + 1).last() == es@[i as int]);
        assert(batch_rows(es@.subrange(0, i as int)).len() == first);
        assert(rows_view(rows@) =~= batch_rows(es@.subrange(0, i + 1)));
        i = i + 1;
    }
    assert(es@.subrange(0, i as int) =~= es@);
    rows
}

/// The languages the translated rows of a list of experiences are stored under: each
/// node name's under `name_lang`, and each statement's under French, whichever way
/// the batch was translated.
pub open spec fn row_languages(es: Seq<RawExperience>, name_lang: Seq<char>) -> Seq<Seq<char>>
    decreases es.len(),
{
    if es.len() == 0 {
        Seq::empty()
    } else {
        row_languages(es.drop_last(), name_lang) + seq![name_lang] + Seq::new(es.last().phrase_ids@.len(), |k: int| "fr"@)
    }
}

/// The language code each translated row of `es`, written in `lang`, is stored under,
/// row by row as [`translation_rows`] lists them: a node name's translation under the
/// target language of [`translation_codes`], a statement's under `fr`.
pub fn translation_row_languages(es: &Vec<RawExperience>, lang: &str) -> (v: Vec<String>)
    ensures
        batch_texts(v@) == row_languages(es@, translation_codes(lang@).2),
{
    let (_, _, name_lang) = translation_direction(lang);
    let mut v: Vec<String> = Vec::new();
    let mut i: usize = 0;
    while i < es.len()
        invariant
            i <= es.len(),
            batch_texts(v@) == row_languages(es@.subrange(0, i as int), name_lang@),
        decreases es.len() - i,
    {
        let e = &es[i];
        let ghost start = batch_texts(v@);
        v.push(name_lang.clone());
        assert(batch_texts(v@) =~= start + seq![name_lang@] + Seq::new(0 as nat, |k: int| "fr"@));
        let mut k: usize = 0;
        while k < e.phrase_ids.len()
            invariant
                k <= e.phrase_ids.len(),
                batch_texts(v@) == start + seq![name_lang@] + Seq::new(k as nat, |j: int| "fr"@),
            decreases e.phrase_ids.len() - k,
        {
            let ghost before = v@;
            v.push("fr".to_string());
            assert(batch_texts(v@) =~= batch_texts(before).push("fr"@));
            k = k + 1;
            assert(start + seq![name_lang@] + Seq::new(k as nat, |j: int| "fr"@) =~= (start + seq![name_lang@] + Seq::new((k - 1) as nat, |j: int| "fr"@)).push("fr"@));
        }
        assert(es@.subrange(0, i + 1).drop_last() =~= es@.subrange(0, i as int));
        assert(es@.subrange(0, i + 1).last() == es@[i as int]);
        i = i + 1;
    }
    assert(es@.subrange(0, i as int) =~= es@);
    v
}

/// All statements have text: none is left out of the batch.
proof fn lemma_nonempty_all(v: Seq<String>)
    requires
        forall|k: int| 0 <= k < v.len() ==> (#[trigger] v[k])@.len() > 0,
    ensures
        nonempty_texts(v) == v.map_values(|s: String| s@),
    decreases v.len(),
{
    if v.len() > 0 {
        lemma_nonempty_all(v.drop_last());
        assert(v.map_values(|s: String| s@) =~= v.drop_last().map_values(|s: String| s@).push(v.last()@));
    }
}

/// When every statement has text and a phrase of its own, the batch and its rows line
/// up: row `j` is read back into the phrase of the `j`-th text sent, and that text is
/// the phrase's own text.
pub proof fn lemma_rows_match_batch(es: Seq<RawExperience>)
    requires
        forall|i: int| 0 <= i < es.len() ==> aligned(#[trigger] es[i]),
    ensures
        batch_rows(es).len() == batch(es).len(),
        phrase_sources(es).len() == batch(es).len(),
        forall|j: int| 0 <= j < batch(es).len() ==> (#[trigger] batch_rows(es)[j]).1 == j,
        forall|j: int| 0 <= j < batch(es).len() ==> (#[trigger] batch_rows(es)[j]).0 == phrase_sources(es)[j].0,
        forall|j: int| 0 <= j < batch(es).len() ==> #[trigger] batch(es)[j] == phrase_sources(es)[j].1,
    decreases es.len(),
{
    if es.len() > 0 {
        let init = es.drop_last();
        assert forall|i: int| 0 <= i < init.len() implies aligned(#[trigger] init[i]) by {
            assert(init[i] == es[i]);
        }
        lemma_rows_match_batch(init);
        let e = es.last();
        assert(aligned(es[es.len() - 1]));
        lemma_nonempty_all(e.statements@);
        let n = batch(init).len();
        let m = e.phrase_ids@.len();
        let b = batch(es);
        let r = batch_rows(es);
        let src = phrase_sources(es);
        assert(b.len() == n + 1 + m);
        assert forall|j: int| 0 <= j < b.len() implies (#[trigger] r[j]).1 == j by {
            if j >= n + 1 {
                assert(r[j] == (e.phrase_ids@[j - n - 1], n + 1 + (j - n - 1)));
            }
        }
        assert forall|j: int| 0 <= j < b.len() implies (#[trigger] r[j]).0 == src[j].0 by {
            if j >= n + 1 {
                assert(r[j] == (e.phrase_ids@[j - n - 1], n + 1 + (j - n - 1)));
                assert(src[j] == (e.phrase_ids@[j - n - 1], e.statements@[j - n - 1]@));
            } else if j < n {
                assert(r[j] == batch_rows(init)[j]);
                assert(src[j] == phrase_sources(init)[j]);
            }
        }
        assert forall|j: int| 0 <= j < b.len() implies #[trigger] b[j] == src[j].1 by {
            if j >= n + 1 {
                assert(b[j] == e.statements@[j - n - 1]@);
                assert(src[j] == (e.phrase_ids@[j - n - 1], e.statements@[j - n - 1]@));
            } else if j < n {
                assert(b[j] == batch(init)[j]);
                assert(src[j] == phrase_sources(init)[j]);
            }
        }
    }
}

/// Whether `s` has the line separator `.` followed by a newline at `i`.
pub open spec fn separator_at(s: Seq<char>, i: int) -> bool {
    0 <= i && i + 1 < s.len() && s[i] == '.' && s[i + 1] == '\n'
}

/// The pieces of `s` from `start` on, scanning for separators from `i`: what
/// `str::split(".\n")` gives.
pub open spec fn pieces_from(s: Seq<char>, start: int, i: int) -> Seq<Seq<char>>
    decreases s.len() - i,
{
    if i < start || i + 1 >= s.len() {
        seq![s.subrange(start, s.len() as int)]
    } else if separator_at(s, i) {
        seq![s.subrange(start, i)] + pieces_from(s, i + 2, i + 2)
    } else {
        pieces_from(s, start, i + 1)
    }
}

/// The pieces of `s` between separators.
pub open spec fn pieces(s: Seq<char>) -> Seq<Seq<char>> {
    pieces_from(s, 0, 0)
}

/// Each of `parts` followed by a separator.
pub open spec fn terminated(parts: Seq<Seq<char>>) -> Seq<char>
    decreases parts.len(),
{
    if parts.len() == 0 {
        Seq::empty()
    } else {
        parts[0] + seq!['.', '\n'] + terminated(parts.drop_first())
    }
}

/// The text sent for translation in one piece: the node name, then each statement
/// followed by a separator.
pub open spec fn joined_input(node_name: Seq<char>, statements: Seq<String>) -> Seq<char> {
    node_name + terminated(statements.map_values(|s: String| s@))
}

/// Whether `s` holds no separator.
pub open spec fn separator_free(s: Seq<char>) -> bool {
    forall|i: int| !separator_at(s, i)
}

/// Appends `s` to `out`.
fn append_chars(out: &mut Vec<char>, s: &str)
    ensures
        final(out)@ == old(out)@ + s@,
{
    let v = chars_of(s);
    let mut i: usize = 0;
    while i < v.len()
        invariant
            v@ == s@,
            i <= v.len(),
            out@ == old(out)@ + v@.subrange(0, i as int),
        decreases v.len() - i,
    {
        out.push(v[i]);
        i = i + 1;
        assert(old(out)@ + v@.subrange(0, i as int) =~= (old(out)@ + v@.subrange(0, i - 1)).push(v@[i - 1]));
    }
    assert(v@.subrange(0, i as int) =~= v@);
}

proof fn lemma_terminated_push(parts: Seq<Seq<char>>, p: Seq<char>)
    ensures
        terminated(parts.push(p)) == terminated(parts) + p + seq!['.', '\n'],
    decreases parts.len(),
{
    if parts.len() == 0 {
        assert(parts.push(p).drop_first() =~= Seq::<Seq<char>>::empty());
        assert(parts.push(p)[0] == p);
        assert(terminated(Seq::<Seq<char>>::empty()) == Seq::<char>::empty());
        assert(terminated(parts) == Seq::<char>::empty());
        assert(terminated(parts.push(p)) =~= p + seq!['.', '\n']);
    } else {
        lemma_terminated_push(parts.drop_first(), p);
        assert(parts.push(p).drop_first() =~= parts.drop_first().push(p));
        assert(terminated(parts.push(p)) =~= terminated(parts) + p + seq!['.', '\n']);
    }
}

/// The text sent to the translation service for a raw experience: the node name, then
/// each statement followed by `.` and a newline.
pub fn joined_translation_input(raw: &RawExperience) -> (r: String)
    ensures
        r@ == joined_input(raw.node_name@, raw.statements@),
{
    let mut out: Vec<char> = Vec::new();
    append_chars(&mut out, raw.node_name.as_str());
    let ghost name = raw.node_name@;
    let ghost sv = raw.statements@.map_values(|s: String| s@);
    let mut i: usize = 0;
    assert(terminated(sv.subrange(0, 0)) =~= Seq::<char>::empty());
    assert(out@ =~= name + terminated(sv.subrange(0, 0)));
    while i < raw.statements.len()
        invariant
            i <= raw.statements.len(),
            sv == raw.statements@.map_values(|s: String| s@),
            out@ == name + terminated(sv.subrange(0, i as int)),
        decreases raw.statements.len() - i,
    {
        append_chars(&mut out, raw.statements[i].as_str());
        out.push('.');
        out.push('\n');
        proof {
            lemma_terminated_push(sv.subrange(0, i as int), sv[i as int]);
            assert(sv.subrange(0, i + 1) =~= sv.subrange(0, i as int).push(sv[i as int]));
        }
        assert(out@ =~= name + terminated(sv.subrange(0, i + 1)));
        i = i + 1;
    }
    assert(sv.subrange(0, i as int) =~= sv);
    string_of(&out)
}

/// The pieces of `text` between `.`-newline separators, in order (`split(".\n")`).
pub fn split_translation(text: &str) -> (r: Vec<String>)
    ensures
        batch_texts(r@) == pieces(text@),
{
    let s = chars_of(text);
    let n = s.len();
    let mut r: Vec<String> = Vec::new();
    let mut start: usize = 0;
    let mut i: usize = 0;
    while n > 0 && i < n - 1
        invariant
            s@ == text@,
            n == s.len(),
            start <= i <= n,
            batch_texts(r@) + pieces_from(s@, start as int, i as int) == pieces(s@),
        decreases n - i,
    {
        if s[i] == '.' && s[i + 1] == '\n' {
            let mut piece: Vec<char> = Vec::new();
            let mut k: usize = start;
            while k < i
                invariant
                    start <= k <= i < n,
                    n == s.len(),
                    piece@ == s@.subrange(start as int, k as int),
                decreases i - k,
            {
                piece.push(s[k]);
                k = k + 1;
                assert(s@.subrange(start as int, k as int) =~= s@.subrange(start as int, k - 1).push(s@[k - 1]));
            }
            let ghost before = r@;
            r.push(string_of(&piece));
            assert(batch_texts(r@) =~= batch_texts(before).push(s@.subrange(start as int, i as int)));
            assert(batch_texts(r@) + pieces_from(s@, i + 2, i + 2) =~= batch_texts(before) + (seq![s@.subrange(start as int, i as int)] + pieces_from(s@, i + 2, i + 2)));
            start = i + 2;
            i = i + 2;
        } else {
            i = i + 1;
        }
    }
    let mut last: Vec<char> = Vec::new();
    let mut k: usize = start;
    while k < n
        invariant
            start <= k <= n,
            n == s.len(),
            last@ == s@.subrange(start as int, k as int),
        decreases n - k,
    {
        last.push(s[k]);
        k = k + 1;
        assert(s@.subrange(start as int, k as int) =~= s@.subrange(start as int, k - 1).push(s@[k - 1]));
    }
    let ghost before = r@;
    r.push(string_of(&last));
    assert(pieces_from(s@, start as int, i as int) == seq![s@.subrange(start as int, n as int)]);
    assert(batch_texts(r@) =~= batch_texts(before) + seq![s@.subrange(start as int, n as int)]);
    r
}

/// The phrase and its translation for each piece, paired in order as far as both go:
/// each lowercased, trimmed and slash-free.
pub open spec fn piece_pairs(input: Seq<Seq<char>>, output: Seq<Seq<char>>) -> Seq<(Seq<char>, Seq<char>)> {
    Seq::new(
        if input.len() < output.len() { input.len() } else { output.len() },
        |k: int| (phrase_form(input[k]), phrase_form(output[k])),
    )
}

/// The phrases and translations that a one-piece translation gives: the `input` and
/// `output` texts split at the separators and paired in order.
pub fn translated_pairs(input: &str, output: &str) -> (r: Vec<(String, String)>)
    ensures
        r@.map_values(|p: (String, String)| (p.0@, p.1@)) == piece_pairs(pieces(input@), pieces(output@)),
{
    let ins = split_translation(input);
    let outs = split_translation(output);
    let m = if ins.len() < outs.len() { ins.len() } else { outs.len() };
    let ghost target = piece_pairs(pieces(input@), pieces(output@));
    let mut r: Vec<(String, String)> = Vec::new();
    let mut k: usize = 0;
    while k < m
        invariant
            batch_texts(ins@) == pieces(input@),
            batch_texts(outs@) == pieces(output@),
            m == target.len(),
            m <= ins.len() && m <= outs.len(),
            target == piece_pairs(pieces(input@), pieces(output@)),
            k <= m,
            r@.map_values(|p: (String, String)| (p.0@, p.1@)) == target.subrange(0, k as int),
        decreases m - k,
    {
        let ghost before = r@;
        r.push((normalize_phrase(ins[k].as_str()), normalize_phrase(outs[k].as_str())));
        assert(ins@[k as int]@ == pieces(input@)[k as int]);
        assert(outs@[k as int]@ == pieces(output@)[k as int]);
        assert(r@.map_values(|p: (String, String)| (p.0@, p.1@)) =~= before.map_values(|p: (String, String)| (p.0@, p.1@)).push(target[k as int]));
        k = k + 1;
        assert(target.subrange(0, k as int) =~= target.subrange(0, k - 1).push(target[k - 1]));
    }
    assert(target.subrange(0, m as int) =~= target);
    r
}

/// Scanning on past places that hold no separator changes nothing.
proof fn lemma_pieces_skip(s: Seq<char>, start: int, j: int, k: int)
    requires
        0 <= start <= j <= k,
        k + 1 < s.len(),
        forall|i: int| j <= i < k ==> !separator_at(s, i),
    ensures
        pieces_from(s, start, j) == pieces_from(s, start, k),
    decreases k - j,
{
    if j < k {
        lemma_pieces_skip(s, start, j + 1, k);
    }
}

/// Splitting the end of a text is splitting that end on its own.
proof fn lemma_pieces_shift(a: Seq<char>, b: Seq<char>, start: int, i: int)
    requires
        a.len() <= start <= i,
        start <= a.len() + b.len(),
    ensures
        pieces_from(a + b, start, i) == pieces_from(b, start - a.len(), i - a.len()),
    decreases (a + b).len() - i,
{
    let s = a + b;
    let d = a.len() as int;
    if !(i < start || i + 1 >= s.len()) {
        assert(s[i] == b[i - d] && s[i + 1] == b[i + 1 - d]);
        if separator_at(s, i) {
            lemma_pieces_shift(a, b, i + 2, i + 2);
            assert(s.subrange(start, i) =~= b.subrange(start - d, i - d));
        } else {
            lemma_pieces_shift(a, b, start, i + 1);
        }
    } else {
        assert(s.subrange(start, s.len() as int) =~= b.subrange(start - d, b.len() as int));
    }
}

/// Splitting texts that were each followed by a separator gives them back, with an
/// empty piece after the last separator, provided none of them holds a separator.
pub proof fn lemma_split_terminated(parts: Seq<Seq<char>>)
    requires
        forall|k: int| 0 <= k < parts.len() ==> separator_free(#[trigger] parts[k]),
    ensures
        pieces(terminated(parts)) == parts.push(Seq::<char>::empty()),
    decreases parts.len(),
{
    if parts.len() == 0 {
        assert(terminated(parts) =~= Seq::<char>::empty());
        assert(Seq::<char>::empty().subrange(0, 0) =~= Seq::<char>::empty());
        assert(pieces(Seq::<char>::empty()) =~= seq![Seq::<char>::empty()]);
        assert(parts.push(Seq::<char>::empty()) =~= seq![Seq::<char>::empty()]);
    } else {
        let p = parts[0];
        let rest = parts.drop_first();
        assert forall|k: int| 0 <= k < rest.len() implies separator_free(#[trigger] rest[k]) by {
            assert(rest[k] == parts[k + 1]);
        }
        lemma_split_terminated(rest);
        let head = p + seq!['.', '\n'];
        let s = terminated(parts);
        assert(s =~= head + terminated(rest));
        let n = p.len() as int;
        assert(separator_free(parts[0]));
        assert forall|i: int| 0 <= i < n implies !separator_at(s, i) by {
            if i + 1 < n {
                assert(s[i] == p[i] && s[i + 1] == p[i + 1]);
                assert(!separator_at(p, i));
            } else {
                assert(s[i + 1] == '.');
            }
        }
        lemma_pieces_skip(s, 0, 0, n);
        assert(separator_at(s, n));
        lemma_pieces_shift(head, terminated(rest), n + 2, n + 2);
        assert(s.subrange(0, n) =~= p);
        assert(parts.push(Seq::<char>::empty()) =~= seq![p] + rest.push(Seq::<char>::empty()));
    }
}

/// The texts sent for one demonstration experience: its node name ended by a
/// separator, then its non-empty statements.
pub open spec fn dotted_experience_batch(e: RawExperience) -> Seq<Seq<char>> {
    seq![e.node_name@ + seq!['.', '\n']] + nonempty_texts(e.statements@)
}

/// The texts sent for the demonstration experiences, experience after experience.
pub open spec fn dotted_batch(es: Seq<RawExperience>) -> Seq<Seq<char>>
    decreases es.len(),
{
    if es.len() == 0 {
        Seq::empty()
    } else {
        dotted_batch(es.drop_last()) + dotted_experience_batch(es.last())
    }
}

/// The texts to send for the demonstration experiences: each node name followed by a
/// separator, then its non-empty statements.
pub fn dotted_translation_batch(es: &Vec<RawExperience>) -> (v: Vec<String>)
    ensures
        batch_texts(v@) == dotted_batch(es@),
{
    let mut v: Vec<String> = Vec::new();
    let mut i: usize = 0;
    while i < es.len()
        invariant
            i <= es.len(),
            batch_texts(v@) == dotted_batch(es@.subrange(0, i as int)),
        decreases es.len() - i,
    {
        let ghost before = v@;
        let mut name: Vec<char> = Vec::new();
        append_chars(&mut name, es[i].node_name.as_str());
        name.push('.');
        name.push('\n');
        assert(name@ =~= es@[i as int].node_name@ + seq!['.', '\n']);
        v.push(string_of(&name));
        assert(batch_texts(v@) =~= batch_texts(before) + seq![es@[i as int].node_name@ + seq!['.', '\n']]);
        push_nonempty(&mut v, &es[i].statements);
        assert(es@.subrange(0, i + 1).drop_last() =~= es@.subrange(0, i as int));
        assert(batch_texts(v@) =~= dotted_batch(es@.subrange(0, i + 1)));
        i = i + 1;
    }
    assert(es@.subrange(0, i as int) =~= es@);
    v
}

/// Where the demonstration reading takes each text from: four rows per experience,
/// the first for the node name (`None`) and the next three for its statements.
pub open spec fn fixed_row(row: int) -> (int, Option<int>) {
    (row / 4, if row % 4 == 0 { None } else { Some(row % 4 - 1) })
}

/// For each of the `count` demonstration experiences in turn, the four rows read back:
/// the experience, the row, and which statement it is (`None` for the node name).
pub fn fixed_rows(count: usize) -> (rows: Vec<(usize, usize, Option<usize>)>)
    requires
        count * 4 <= usize::MAX,
    ensures
        rows.len() == count * 4,
        forall|j: int| 0 <= j < rows.len() ==> (#[trigger] rows@[j]).1 == j && rows@[j].0 == fixed_row(j).0
            && (match rows@[j].2 { Some(k) => fixed_row(j).1 == Some(k as int), None => fixed_row(j).1 is None }),
{
    let mut rows: Vec<(usize, usize, Option<usize>)> = Vec::new();
    let mut i: usize = 0;
    while i < count
        invariant
            count * 4 <= usize::MAX,
            i <= count,
            rows.len() == i * 4,
            forall|j: int| 0 <= j < rows.len() ==> (#[trigger] rows@[j]).1 == j && rows@[j].0 == fixed_row(j).0
                && (match rows@[j].2 { Some(k) => fixed_row(j).1 == Some(k as int), None => fixed_row(j).1 is None }),
        decreases count - i,
    {
        assert(i * 4 + 4 <= count * 4) by (nonlinear_arith)
            requires i < count;
        let base = i * 4;
        let mut s: usize = base;
        while s < base + 4
            invariant
                base == i * 4,
                base + 4 <= count * 4 <= usize::MAX,
                base <= s <= base + 4,
                rows.len() == s,
                forall|j: int| 0 <= j < rows.len() ==> (#[trigger] rows@[j]).1 == j && rows@[j].0 == fixed_row(j).0
                    && (match rows@[j].2 { Some(k) => fixed_row(j).1 == Some(k as int), None => fixed_row(j).1 is None }),
            decreases base + 4 - s,
        {
            let ghost before = rows@;
            assert((s as int) / 4 == i as int && (s as int) % 4 == s - base) by (nonlinear_arith)
                requires base == i * 4, base <= s < base + 4;
            if s == base {
                rows.push((i, s, None));
            } else {
                rows.push((i, s, Some(s - 1 - base)));
            }
            assert forall|j: int| 0 <= j < rows.len() implies (#[trigger] rows@[j]).1 == j && rows@[j].0 == fixed_row(j).0
                && (match rows@[j].2 { Some(k) => fixed_row(j).1 == Some(k as int), None => fixed_row(j).1 is None }) by {
                if j < before.len() {
                    assert(rows@[j] == before[j]);
                }
            }
            s = s + 1;
        }
        i = i + 1;
    }
    rows
}

/// When every demonstration experience has three statements with text, the fixed
/// reading lines up with the batch: row `4i` is experience `i`'s node name and row
/// `4i + 1 + k` its statement `k`.
pub proof fn lemma_fixed_rows_match(es: Seq<RawExperience>)
    requires
        forall|i: int| 0 <= i < es.len() ==> (#[trigger] es[i]).statements@.len() == 3 && aligned(es[i]),
    ensures
        dotted_batch(es).len() == 4 * es.len(),
        forall|j: int| 0 <= j < dotted_batch(es).len() ==> #[trigger] dotted_batch(es)[j] == (match fixed_row(j).1 {
            None => es[fixed_row(j).0].node_name@ + seq!['.', '\n'],
            Some(k) => es[fixed_row(j).0].statements@[k]@,
        }),
    decreases es.len(),
{
    if es.len() > 0 {
        let init = es.drop_last();
        assert forall|i: int| 0 <= i < init.len() implies (#[trigger] init[i]).statements@.len() == 3 && aligned(init[i]) by {
            assert(init[i] == es[i]);
        }
        lemma_fixed_rows_match(init);
        let e = es.last();
        assert(es[es.len() - 1] == e);
        lemma_nonempty_all(e.statements@);
        let n = init.len() as int;
        let b = dotted_batch(es);
        assert(b == dotted_batch(init) + dotted_experience_batch(e));
        assert forall|j: int| 0 <= j < b.len() implies #[trigger] b[j] == (match fixed_row(j).1 {
            None => es[fixed_row(j).0].node_name@ + seq!['.', '\n'],
            Some(k) => es[fixed_row(j).0].statements@[k]@,
        }) by {
            if j < 4 * n {
                assert(b[j] == dotted_batch(init)[j]);
                assert(fixed_row(j).0 < n) by (nonlinear_arith)
                    requires 0 <= j < 4 * n, fixed_row(j).0 == j / 4;
                assert(0 <= fixed_row(j).0) by (nonlinear_arith)
                    requires 0 <= j, fixed_row(j).0 == j / 4;
                assert(es[fixed_row(j).0] == init[fixed_row(j).0]);
            } else {
                let t = j - 4 * n;
                assert(j / 4 == n && j % 4 == t) by (nonlinear_arith)
                    requires 4 * n <= j < 4 * n + 4, t == j - 4 * n;
                assert(b[j] == dotted_experience_batch(e)[t]);
            }
        }
    }
}

} // verus!
