//! Interface languages (English and French) and the language-switch redirects.

use vstd::prelude::*;

use crate::text::{chars_of, push_char, str_equal, string_of};

verus! {

/// The language a page is rendered in: French when `French` is asked for, English otherwise.
pub open spec fn page_lang(lang: Seq<char>) -> Seq<char> {
    if lang == "fr"@ {
        "fr"@
    } else {
        "en"@
    }
}

/// The language the switch leads to: French from English, English from anything else.
pub open spec fn switched_lang(lang: Seq<char>) -> Seq<char> {
    if lang == "en"@ {
        "fr"@
    } else {
        "en"@
    }
}

/// The language the switch on a language's home page leads to.
pub open spec fn switched_index_lang(lang: Seq<char>) -> Seq<char> {
    if lang == "fr"@ {
        "en"@
    } else if lang == "en"@ {
        "fr"@
    } else {
        "en"@
    }
}

/// The last `/`-separated segment of `url` (the whole of it when it holds no `/`).
pub open spec fn last_segment(url: Seq<char>) -> Seq<char>
    decreases url.len(),
{
    if url.len() == 0 {
        url
    } else if url.last() == '/' {
        Seq::empty()
    } else {
        last_segment(url.drop_last()).push(url.last())
    }
}

/// The language code a page is rendered in (see [`page_lang`]).
pub fn validated_lang(lang: &str) -> (r: String)
    ensures
        r@ == page_lang(lang@),
{
    if str_equal(lang, "fr") {
        "fr".to_string()
    } else {
        "en".to_string()
    }
}

/// The language the switch leads to (see [`switched_lang`]).
pub fn switched_language(lang: &str) -> (r: String)
    ensures
        r@ == switched_lang(lang@),
{
    if str_equal(lang, "en") {
        "fr".to_string()
    } else {
        "en".to_string()
    }
}

/// The language the switch on a home page leads to (see [`switched_index_lang`]).
pub fn switched_index_language(lang: &str) -> (r: String)
    ensures
        r@ == switched_index_lang(lang@),
{
    if str_equal(lang, "fr") {
        "en".to_string()
    } else if str_equal(lang, "en") {
        "fr".to_string()
    } else {
        "en".to_string()
    }
}

/// The last `/`-separated segment of `url` (`url.split("/").last()`).
pub fn last_url_segment(url: &str) -> (r: String)
    ensures
        r@ == last_segment(url@),
{
    let v = chars_of(url);
    let mut start: usize = v.len();
    assert(url@.subrange(0, start as int) =~= url@);
    assert(url@.subrange(start as int, url@.len() as int) =~= Seq::<char>::empty());
    while start > 0 && v[start - 1] != '/'
        invariant
            v@ == url@,
            start <= v.len(),
            last_segment(url@) == last_segment(url@.subrange(0, start as int)) + url@.subrange(
                start as int,
                url@.len() as int,
            ),
        decreases start,
    {
        let ghost p = url@.subrange(0, start as int);
        assert(p.drop_last() =~= url@.subrange(0, start - 1));
        assert(url@.subrange(start - 1, url@.len() as int) =~= seq![p.last()] + url@.subrange(
            start as int,
            url@.len() as int,
        ));
        start = start - 1;
    }
    proof {
        let p = url@.subrange(0, start as int);
        if start > 0 {
            assert(p.last() == '/');
        }
        assert(last_segment(p) =~= Seq::<char>::empty());
    }
    let mut r: Vec<char> = Vec::new();
    let mut i: usize = start;
    while i < v.len()
        invariant
            v@ == url@,
            start <= i <= v.len(),
            r@ =~= url@.subrange(start as int, i as int),
        decreases v.len() - i,
    {
        r.push(v[i]);
        i = i + 1;
    }
    string_of(&r)
}

/// `"/" + a`.
pub open spec fn path1(a: Seq<char>) -> Seq<char> {
    seq!['/'] + a
}

/// Appends `/` and then `part` to `s`.
fn push_segment(s: &mut String, part: &str)
    ensures
        final(s)@ == old(s)@ + seq!['/'] + part@,
{
    push_char(s, '/');
    s.append(part);
}

/// Where the language switch on a home page sends the visitor: `/{new_lang}`.
pub fn toggle_language_index_location(lang: &str) -> (r: String)
    ensures
        r@ == path1(switched_index_lang(lang@)),
{
    let new_lang = switched_index_language(lang);
    let mut r = String::new();
    push_segment(&mut r, new_lang.as_str());
    r
}

/// Where the language switch on `/{lang}/{url}` sends the visitor:
/// `/{new_lang}/{last segment of url}`.
pub fn toggle_language_location(lang: &str, url: &str) -> (r: String)
    ensures
        r@ == path1(switched_lang(lang@)) + path1(last_segment(url@)),
{
    let new_lang = switched_language(lang);
    let cleaned = last_url_segment(url);
    let mut r = String::new();
    push_segment(&mut r, new_lang.as_str());
    push_segment(&mut r, cleaned.as_str());
    r
}

/// Where the language switch on `/{lang}/{url}/{url2}` sends the visitor.
pub fn toggle_language_two_location(lang: &str, url: &str, url2: &str) -> (r: String)
    ensures
        r@ == path1(switched_lang(lang@)) + path1(url@) + path1(url2@),
{
    let new_lang = switched_language(lang);
    let mut r = String::new();
    push_segment(&mut r, new_lang.as_str());
    push_segment(&mut r, url);
    push_segment(&mut r, url2);
    r
}

/// Where the language switch on `/{lang}/{url}/{url2}/{url3}` sends the visitor.
pub fn toggle_language_three_location(lang: &str, url: &str, url2: &str, url3: &str) -> (r:
    String)
    ensures
        r@ == path1(switched_lang(lang@)) + path1(url@) + path1(url2@) + path1(url3@),
{
    let new_lang = switched_language(lang);
    let mut r = String::new();
    push_segment(&mut r, new_lang.as_str());
    push_segment(&mut r, url);
    push_segment(&mut r, url2);
    push_segment(&mut r, url3);
    r
}

/// The machine-translation direction for text written in `lang`: the source and target
/// language codes that the translation service takes, and the code the translation is
/// stored under.
pub open spec fn translation_codes(lang: Seq<char>) -> (Seq<char>, Seq<char>, Seq<char>) {
    if lang == "fr"@ {
        ("FR"@, "EN"@, "en"@)
    } else {
        ("EN"@, "FR"@, "fr"@)
    }
}

/// The machine-translation direction for text written in `lang` (see [`translation_codes`]).
pub fn translation_direction(lang: &str) -> (r: (String, String, String))
    ensures
        (r.0@, r.1@, r.2@) == translation_codes(lang@),
{
    proof {
        lemma_codes_distinct();
    }
    if str_equal(lang, "en") {
        ("EN".to_string(), "FR".to_string(), "fr".to_string())
    } else if str_equal(lang, "fr") {
        ("FR".to_string(), "EN".to_string(), "en".to_string())
    } else {
        ("EN".to_string(), "FR".to_string(), "fr".to_string())
    }
}

proof fn lemma_codes_distinct()
    ensures
        "en"@ != "fr"@,
        "en"@.len() == 2,
        "fr"@.len() == 2,
{
    reveal_strlit("en");
    reveal_strlit("fr");
    assert("en"@[0] != "fr"@[0]);
}

/// The two language switches lead to the same language.
pub proof fn lemma_switches_agree(lang: Seq<char>)
    ensures
        switched_index_lang(lang) == switched_lang(lang),
{
    lemma_codes_distinct();
}

/// Switching twice from a supported language comes back to it.
pub proof fn lemma_switch_twice(lang: Seq<char>)
    requires
        lang == "en"@ || lang == "fr"@,
    ensures
        switched_lang(switched_lang(lang)) == lang,
{
    lemma_codes_distinct();
}

/// From a supported language the switch leads to the other supported language.
pub proof fn lemma_switch_changes_language(lang: Seq<char>)
    requires
        lang == "en"@ || lang == "fr"@,
    ensures
        switched_lang(lang) != page_lang(lang),
        page_lang(switched_lang(lang)) == switched_lang(lang),
{
    lemma_codes_distinct();
}

/// Text written in a supported language is translated into the language the switch
/// leads to.
pub proof fn lemma_translation_target(lang: Seq<char>)
    requires
        lang == "en"@ || lang == "fr"@,
    ensures
        translation_codes(lang).2 == switched_lang(lang),
{
    lemma_codes_distinct();
}

/// The last segment of a URL holds no `/`.
pub proof fn lemma_last_segment_has_no_slash(url: Seq<char>)
    ensures
        !last_segment(url).contains('/'),
    decreases url.len(),
{
    if url.len() > 0 && url.last() != '/' {
        lemma_last_segment_has_no_slash(url.drop_last());
        assert forall|i: int| 0 <= i < last_segment(url).len() implies last_segment(url)[i] != '/' by {
            if i < last_segment(url.drop_last()).len() {
                assert(last_segment(url)[i] == last_segment(url.drop_last())[i]);
            }
        }
    }
}

} // verus!
