//! Reading a participant's survey answers: which submissions are refused, what node
//! and statements an experience comes to, and how the phrases are stored.

use vstd::prelude::*;

use crate::graph::{snake_case, snake_cased};
use crate::text::{answer_form, lowercase, lowercased, normalize_answer, normalize_phrase, phrase_form, trim_str, trimmed};

verus! {

/// The text answers of an experience form.
pub struct ExperienceAnswers {
    pub name: String,
    pub domain: String,
    pub response_1: String,
    pub response_2: String,
    pub response_3: String,
}

/// What a valid experience form comes to.
pub struct SurveyEntry {
    /// The node name, lowercased and trimmed.
    pub node_name: String,
    /// The answered statements, lowercased and trimmed, in order.
    pub statements: Vec<String>,
    /// The domain, lowercased and trimmed.
    pub domain: String,
    /// The slug of the node.
    pub slug: String,
}

/// Raw participant text that phrases, a node and an experience are made from.
pub struct RawExperience {
    pub node_name: String,
    pub name_id: i32,
    pub statements: Vec<String>,
    pub phrase_ids: Vec<i32>,
}

/// The texts of a list of strings.
pub open spec fn answer_texts(v: Seq<String>) -> Seq<Seq<char>> {
    v.map_values(|s: String| s@)
}

/// The answered statements: each non-empty response, lowercased and trimmed.
pub open spec fn answered(r1: Seq<char>, r2: Seq<char>, r3: Seq<char>) -> Seq<Seq<char>> {
    (if r1.len() > 0 { seq![answer_form(r1)] } else { Seq::empty() })
        + (if r2.len() > 0 { seq![answer_form(r2)] } else { Seq::empty() })
        + (if r3.len() > 0 { seq![answer_form(r3)] } else { Seq::empty() })
}

/// Appends the read form of `r` if it is not empty.
fn push_answer(out: &mut Vec<String>, r: &str)
    ensures
        answer_texts(final(out)@) == answer_texts(old(out)@) + (if r@.len() > 0 { seq![answer_form(r@)] } else { Seq::empty() }),
{
    let ghost before = out@;
    if r.unicode_len() > 0 {
        out.push(normalize_answer(r));
        assert(answer_texts(out@) =~= answer_texts(before) + seq![answer_form(r@)]);
    } else {
        assert(answer_texts(out@) =~= answer_texts(before) + Seq::<Seq<char>>::empty());
    }
}

/// The statements of three responses.
pub fn collect_statements(response_1: &str, response_2: &str, response_3: &str) -> (v: Vec<String>)
    ensures
        answer_texts(v@) == answered(response_1@, response_2@, response_3@),
{
    let mut v: Vec<String> = Vec::new();
    assert(answer_texts(v@) =~= Seq::<Seq<char>>::empty());
    push_answer(&mut v, response_1);
    push_answer(&mut v, response_2);
    push_answer(&mut v, response_3);
    assert(answered(response_1@, response_2@, response_3@) =~= Seq::<Seq<char>>::empty() + (if response_1@.len() > 0 { seq![answer_form(response_1@)] } else { Seq::empty() }) + (if response_2@.len() > 0 { seq![answer_form(response_2@)] } else { Seq::empty() }) + (if response_3@.len() > 0 { seq![answer_form(response_3@)] } else { Seq::empty() }));
    v
}

impl ExperienceAnswers {
    /// The experience the answers describe; `None` when the name or the first response
    /// is empty. The node's slug is the snake case of the lowercased, trimmed name.
    pub fn read(&self) -> (r: Option<SurveyEntry>)
        ensures
            r is None <==> (self.name@.len() == 0 || self.response_1@.len() == 0),
            r matches Some(e) ==> {
                &&& e.node_name@ == answer_form(self.name@)
                &&& answer_texts(e.statements@) == answered(self.response_1@, self.response_2@, self.response_3@)
                &&& e.domain@ == answer_form(self.domain@)
                &&& e.slug@ == snake_cased(trimmed(lowercased(self.name@)))
            },
    {
        if self.name.unicode_len() == 0 || self.response_1.unicode_len() == 0 {
            return None;
        }
        let node_name = normalize_answer(self.name.as_str());
        let statements = collect_statements(self.response_1.as_str(), self.response_2.as_str(), self.response_3.as_str());
        let domain = normalize_answer(self.domain.as_str());
        let slug = snake_case(node_name.as_str());
        Some(SurveyEntry { node_name, statements, domain, slug })
    }
}

/// The codes of the people a new participant is related to: the trimmed code, if one
/// was given.
pub fn related_codes(related_code: &str) -> (v: Vec<String>)
    ensures
        related_code@.len() == 0 ==> v@.len() == 0,
        related_code@.len() > 0 ==> answer_texts(v@) == seq![trimmed(related_code@)],
{
    let mut v: Vec<String> = Vec::new();
    if related_code.unicode_len() > 0 {
        v.push(trim_str(related_code));
        assert(answer_texts(v@) =~= seq![trimmed(related_code@)]);
    }
    v
}

/// Which of the eight encouragements to show a participant who has described
/// `experience_count` experiences: the count less one, at most the last.
pub fn helper_text_index(experience_count: usize) -> (i: usize)
    requires
        experience_count >= 1,
    ensures
        i == if experience_count - 1 < 7 { experience_count - 1 } else { 7 },
{
    let i = experience_count - 1;
    if i < 7 {
        i
    } else {
        7
    }
}

/// The phrases of a raw experience, as stored: node name, then statements.
pub open spec fn raw_phrase_texts(node_name: Seq<char>, statements: Seq<String>) -> Seq<Seq<char>> {
    seq![phrase_form(node_name)] + statements.map_values(|s: String| phrase_form(s@))
}

impl RawExperience {
    /// Raw text of a node name and its statements, with no phrases yet.
    pub fn new(node_name: String, statements: Vec<String>) -> (r: RawExperience)
        ensures
            r.node_name@ == node_name@,
            r.statements@ == statements@,
            r.name_id == 0,
            r.phrase_ids@.len() == 0,
    {
        RawExperience { node_name, name_id: 0, statements, phrase_ids: Vec::new() }
    }

    /// The raw experience of an entry of imported demonstration data: the node name
    /// trimmed and then lowercased, and each statement trimmed.
    pub fn from_demo_entry(node_name: &str, statements: &Vec<String>) -> (r: RawExperience)
        ensures
            r.node_name@ == lowercased(trimmed(node_name@)),
            answer_texts(r.statements@) == statements@.map_values(|s: String| trimmed(s@)),
            r.name_id == 0,
            r.phrase_ids@.len() == 0,
    {
        let name = lowercase(trim_str(node_name).as_str());
        let mut trimmed_statements: Vec<String> = Vec::new();
        let mut i: usize = 0;
        while i < statements.len()
            invariant
                i <= statements.len(),
                answer_texts(trimmed_statements@) == statements@.subrange(0, i as int).map_values(|s: String| trimmed(s@)),
            decreases statements.len() - i,
        {
            let ghost before = trimmed_statements@;
            trimmed_statements.push(trim_str(statements[i].as_str()));
            assert(answer_texts(trimmed_statements@) =~= answer_texts(before).push(trimmed(statements@[i as int]@)));
            i = i + 1;
            assert(statements@.subrange(0, i as int).map_values(|s: String| trimmed(s@)) =~= statements@.subrange(0, i - 1).map_values(|s: String| trimmed(s@)).push(trimmed(statements@[i - 1]@)));
        }
        assert(statements@.subrange(0, i as int) =~= statements@);
        RawExperience::new(name, trimmed_statements)
    }

    /// The texts the experience's phrases are stored as (lowercased, trimmed, slashes
    /// removed): the node name first, then each statement.
    pub fn phrase_texts(&self) -> (v: Vec<String>)
        ensures
            answer_texts(v@) == raw_phrase_texts(self.node_name@, self.statements@),
    {
        let mut v: Vec<String> = Vec::new();
        v.push(normalize_phrase(self.node_name.as_str()));
        let mut i: usize = 0;
        while i < self.statements.len()
            invariant
                i <= self.statements.len(),
                answer_texts(v@) == seq![phrase_form(self.node_name@)] + self.statements@.subrange(0, i as int).map_values(|s: String| phrase_form(s@)),
            decreases self.statements.len() - i,
        {
            let ghost before = v@;
            v.push(normalize_phrase(self.statements[i].as_str()));
            assert(answer_texts(v@) =~= answer_texts(before).push(phrase_form(self.statements@[i as int]@)));
            i = i + 1;
            assert(self.statements@.subrange(0, i as int).map_values(|s: String| phrase_form(s@)) =~= self.statements@.subrange(0, i - 1).map_values(|s: String| phrase_form(s@)).push(phrase_form(self.statements@[i - 1]@)));
        }
        assert(self.statements@.subrange(0, i as int) =~= self.statements@);
        v
    }

    /// Records the phrases the texts were stored under: the node name's becomes the
    /// name phrase, and the statements' are added, in order, after the statement
    /// phrases already recorded.
    pub fn set_phrases(&mut self, name_id: i32, phrase_ids: Vec<i32>)
        ensures
            final(self).name_id == name_id,
            final(self).phrase_ids@ == old(self).phrase_ids@ + phrase_ids@,
            final(self).node_name@ == old(self).node_name@,
            final(self).statements@ == old(self).statements@,
    {
        self.name_id = name_id;
        let ghost before = self.phrase_ids@;
        let mut i: usize = 0;
        while i < phrase_ids.len()
            invariant
                i <= phrase_ids.len(),
                self.phrase_ids@ == before + phrase_ids@.subrange(0, i as int),
                self.name_id == name_id,
                self.node_name@ == old(self).node_name@,
                self.statements@ == old(self).statements@,
            decreases phrase_ids.len() - i,
        {
            self.phrase_ids.push(phrase_ids[i]);
            i = i + 1;
            assert(before + phrase_ids@.subrange(0, i as int) =~= (before + phrase_ids@.subrange(0, i - 1)).push(phrase_ids@[i - 1]));
        }
        assert(phrase_ids@.subrange(0, i as int) =~= phrase_ids@);
    }
}

/// The non-empty responses, as given.
pub open spec fn given(r1: Seq<char>, r2: Seq<char>, r3: Seq<char>) -> Seq<Seq<char>> {
    (if r1.len() > 0 { seq![r1] } else { Seq::empty() })
        + (if r2.len() > 0 { seq![r2] } else { Seq::empty() })
        + (if r3.len() > 0 { seq![r3] } else { Seq::empty() })
}

fn push_given(out: &mut Vec<String>, r: &String)
    ensures
        answer_texts(final(out)@) == answer_texts(old(out)@) + (if r@.len() > 0 { seq![r@] } else { Seq::empty() }),
{
    let ghost before = out@;
    if r.unicode_len() > 0 {
        out.push(r.clone());
        assert(answer_texts(out@) =~= answer_texts(before) + seq![r@]);
    } else {
        assert(answer_texts(out@) =~= answer_texts(before) + Seq::<Seq<char>>::empty());
    }
}

/// The statements of a lens form: each non-empty response as given.
pub fn lens_statements(response_1: &String, response_2: &String, response_3: &String) -> (v: Vec<String>)
    ensures
        answer_texts(v@) == given(response_1@, response_2@, response_3@),
{
    let mut v: Vec<String> = Vec::new();
    assert(answer_texts(v@) =~= Seq::<Seq<char>>::empty());
    push_given(&mut v, response_1);
    push_given(&mut v, response_2);
    push_given(&mut v, response_3);
    assert(given(response_1@, response_2@, response_3@) =~= Seq::<Seq<char>>::empty() + (if response_1@.len() > 0 { seq![response_1@] } else { Seq::empty() }) + (if response_2@.len() > 0 { seq![response_2@] } else { Seq::empty() }) + (if response_3@.len() > 0 { seq![response_3@] } else { Seq::empty() }));
    v
}

/// The identifier of the first of `nodes` (identifier and name) named `name`, if any.
pub fn find_node_id(nodes: &Vec<(i32, String)>, name: &str) -> (r: Option<i32>)
    ensures
        r matches Some(id) ==> exists|k: int| 0 <= k < nodes.len() && nodes@[k].0 == id && nodes@[k].1@ == name@
            && forall|j: int| 0 <= j < k ==> nodes@[j].1@ != name@,
        r is None ==> forall|j: int| 0 <= j < nodes.len() ==> nodes@[j].1@ != name@,
{
    let mut k: usize = 0;
    while k < nodes.len()
        invariant
            k <= nodes.len(),
            forall|j: int| 0 <= j < k ==> nodes@[j].1@ != name@,
        decreases nodes.len() - k,
    {
        if crate::text::str_equal(nodes[k].1.as_str(), name) {
            return Some(nodes[k].0);
        }
        k = k + 1;
    }
    None
}

/// A translation to run in the background: a raw experience and the language it was
/// written in.
pub struct TranslateJob {
    pub experience: RawExperience,
    pub lang: String,
}

/// A copy of a list of strings.
fn copy_strings(v: &Vec<String>) -> (r: Vec<String>)
    ensures
        answer_texts(r@) == answer_texts(v@),
{
    let mut r: Vec<String> = Vec::new();
    let mut i: usize = 0;
    while i < v.len()
        invariant
            i <= v.len(),
            answer_texts(r@) == answer_texts(v@.subrange(0, i as int)),
        decreases v.len() - i,
    {
        let ghost before = r@;
        r.push(v[i].clone());
        assert(answer_texts(r@) =~= answer_texts(before).push(v@[i as int]@));
        i = i + 1;
        assert(answer_texts(v@.subrange(0, i as int)) =~= answer_texts(v@.subrange(0, i - 1)).push(v@[i - 1]@));
    }
    assert(v@.subrange(0, i as int) =~= v@);
    r
}

impl TranslateJob {
    /// The job of translating `experience`, written in `lang`.
    pub fn new(experience: &RawExperience, lang: &str) -> (j: TranslateJob)
        ensures
            j.experience.node_name@ == experience.node_name@,
            j.experience.name_id == experience.name_id,
            answer_texts(j.experience.statements@) == answer_texts(experience.statements@),
            j.experience.phrase_ids@ == experience.phrase_ids@,
            j.lang@ == lang@,
    {
        let copy = RawExperience {
            node_name: experience.node_name.clone(),
            name_id: experience.name_id,
            statements: copy_strings(&experience.statements),
            phrase_ids: experience.phrase_ids.clone(),
        };
        TranslateJob { experience: copy, lang: lang.to_string() }
    }
}

} // verus!
