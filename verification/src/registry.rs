//! The registry: the root store of tags and questions.
//!
//! The registry owns the set of registered tag strings and the collection of
//! admitted questions, keyed by identifier. It mediates all creation and
//! mutation: a question is admitted only if every tag it references is
//! registered, and all later mutation is routed through the identifier.

use vstd::prelude::*;
use vstd::assert_sets_equal;
use vstd::pervasive::VecAdditionalExecFns;
use crate::strset::{str_set, seq_has_str, distinct_strs, lemma_str_set_subrange_extend, contains_string, insert_string, clone_strings};
use crate::errors::{AddTagErrors, AddQuestionError, GetQuestionError};
use crate::question::{Question, QuestionView, Decision, q_with_context, q_with_options, q_with_decision};
use crate::ident::{identifier_string, parsed_identifier, identifier_to_string, parse_identifier};

verus! {

/// The abstract value of a `Registry`: the registered tags and the admitted
/// questions, keyed by identifier.
#[verifier::ext_equal]
pub ghost struct RegistryView {
    pub tags: Set<Seq<char>>,
    pub questions: Map<u128, QuestionView>,
}

/// The map a sequence of questions stands for: each question keyed by its
/// identifier, a later occurrence of a key shadowing an earlier one.
pub open spec fn questions_map(qs: Seq<Question>) -> Map<u128, QuestionView>
    decreases qs.len(),
{
    if qs.len() == 0 {
        Map::empty()
    } else {
        questions_map(qs.drop_last()).insert(qs.last()@.identifier, qs.last()@)
    }
}

/// No two questions of `qs` carry the same identifier.
pub open spec fn distinct_identifiers(qs: Seq<Question>) -> bool {
    forall|i: int, j: int|
        0 <= i < j < qs.len() ==> #[trigger] qs[i]@.identifier != #[trigger] qs[j]@.identifier
}

/// An identifier is a key of the map exactly when some question of the
/// sequence carries it.
proof fn lemma_questions_map_domain(qs: Seq<Question>, id: u128)
    ensures
        questions_map(qs).contains_key(id) <==> exists|i: int|
            0 <= i < qs.len() && #[trigger] qs[i]@.identifier == id,
    decreases qs.len(),
{
    if qs.len() > 0 {
        let qs0 = qs.drop_last();
        lemma_questions_map_domain(qs0, id);
        let n = qs.len() - 1;
        if questions_map(qs).contains_key(id) {
            if qs.last()@.identifier == id {
                assert(qs[n]@.identifier == id);
            } else {
                let i = choose|i: int| 0 <= i < qs0.len() && #[trigger] qs0[i]@.identifier == id;
                assert(qs[i]@.identifier == id);
            }
        }
        if exists|i: int| 0 <= i < qs.len() && #[trigger] qs[i]@.identifier == id {
            let i = choose|i: int| 0 <= i < qs.len() && #[trigger] qs[i]@.identifier == id;
            if i < n {
                assert(qs0[i]@.identifier == id);
            }
        }
    }
}

/// With distinct identifiers, the map sends each question's identifier to
/// that question's view.
proof fn lemma_questions_map_value(qs: Seq<Question>, i: int)
    requires
        distinct_identifiers(qs),
        0 <= i < qs.len(),
    ensures
        questions_map(qs).contains_key(qs[i]@.identifier),
        questions_map(qs)[qs[i]@.identifier] == qs[i]@,
    decreases qs.len(),
{
    let qs0 = qs.drop_last();
    let n = qs.len() - 1;
    if i < n {
        assert(distinct_identifiers(qs0));
        lemma_questions_map_value(qs0, i);
        assert(qs[i]@.identifier != qs.last()@.identifier);
    }
}

/// Appending a question with a fresh identifier adds exactly one entry to the
/// map and keeps the identifiers distinct.
proof fn lemma_questions_map_push(qs: Seq<Question>, q: Question)
    requires
        distinct_identifiers(qs),
        !questions_map(qs).contains_key(q@.identifier),
    ensures
        distinct_identifiers(qs.push(q)),
        questions_map(qs.push(q)) == questions_map(qs).insert(q@.identifier, q@),
{
    lemma_questions_map_domain(qs, q@.identifier);
    assert(qs.push(q).drop_last() =~= qs);
    assert(qs.push(q).last() == q);
    assert forall|i: int, j: int|
        0 <= i < j < qs.push(q).len() implies #[trigger] qs.push(q)[i]@.identifier
        != #[trigger] qs.push(q)[j]@.identifier by {
        if j == qs.len() {
            assert(qs[i]@.identifier != q@.identifier);
        }
    }
}

/// Replacing the question at an index by one carrying the same identifier
/// updates the map at that identifier alone.
proof fn lemma_questions_map_update(qs: Seq<Question>, i: int, q: Question)
    requires
        distinct_identifiers(qs),
        0 <= i < qs.len(),
        q@.identifier == qs[i]@.identifier,
    ensures
        distinct_identifiers(qs.update(i, q)),
        questions_map(qs.update(i, q)) == questions_map(qs).insert(q@.identifier, q@),
    decreases qs.len(),
{
    let n = qs.len() - 1;
    let qs0 = qs.drop_last();
    assert forall|a: int, b: int|
        0 <= a < b < qs.update(i, q).len() implies #[trigger] qs.update(i, q)[a]@.identifier
        != #[trigger] qs.update(i, q)[b]@.identifier by {
        assert(qs[a]@.identifier != qs[b]@.identifier);
    }
    if i == n {
        assert(qs.update(i, q).drop_last() =~= qs0);
        assert(qs.update(i, q).last() == q);
        assert(questions_map(qs.update(i, q)) =~= questions_map(qs).insert(q@.identifier, q@));
    } else {
        assert(distinct_identifiers(qs0));
        lemma_questions_map_update(qs0, i, q);
        assert(qs.update(i, q).drop_last() =~= qs0.update(i, q));
        assert(qs.update(i, q).last() == qs.last());
        assert(qs.last()@.identifier != q@.identifier);
        assert(questions_map(qs.update(i, q)) =~= questions_map(qs).insert(q@.identifier, q@));
    }
}

/// The root in-memory store: registered tags and admitted questions.
pub struct Registry {
    tags: Vec<String>,
    questions: Vec<Question>,
}

impl View for Registry {
    type V = RegistryView;

    closed spec fn view(&self) -> RegistryView {
        RegistryView {
            tags: str_set(self.tags@),
            questions: questions_map(self.questions@),
        }
    }
}

impl Registry {
    /// The registry's collections hold no duplicate tag strings, no repeated
    /// identifier, and only well-formed questions.
    pub closed spec fn wf(&self) -> bool {
        &&& distinct_strs(self.tags@)
        &&& distinct_identifiers(self.questions@)
        &&& forall|i: int| 0 <= i < self.questions@.len() ==> (#[trigger] self.questions@[i]).wf()
    }

    /// An empty registry: no tags, no questions.
    pub fn new() -> (r: Registry)
        ensures
            r.wf(),
            r@.tags == Set::<Seq<char>>::empty(),
            r@.questions == Map::<u128, QuestionView>::empty(),
    {
        let r = Registry { tags: Vec::new(), questions: Vec::new() };
        proof {
            assert(r@.tags =~= Set::<Seq<char>>::empty());
        }
        r
    }

    /// Registers `tag`. Fails with `AlreadyExists`, mutating nothing, when a
    /// tag reading the same is already registered; afterwards the tag is
    /// registered either way.
    pub fn add_tag(&mut self, tag: &String) -> (r: Result<bool, AddTagErrors>)
        requires
            old(self).wf(),
        ensures
            final(self).wf(),
            final(self)@.questions == old(self)@.questions,
            old(self)@.tags.contains(tag@) ==> r == Err::<bool, AddTagErrors>(AddTagErrors::AlreadyExists)
                && final(self)@.tags == old(self)@.tags,
            !old(self)@.tags.contains(tag@) ==> r == Ok::<bool, AddTagErrors>(true)
                && final(self)@.tags == old(self)@.tags.insert(tag@),
            final(self)@.tags.contains(tag@),
    {
        if contains_string(&self.tags, tag) {
            Err(AddTagErrors::AlreadyExists)
        } else {
            insert_string(&mut self.tags, tag.clone());
            Ok(true)
        }
    }

    /// A snapshot copy of the registered tags, one string per tag.
    pub fn get_tags(&self) -> (r: Vec<String>)
        ensures
            str_set(r@) == self@.tags,
            self.wf() ==> distinct_strs(r@),
    {
        clone_strings(&self.tags)
    }

    /// The position of the question carrying `id`, if any is admitted.
    fn find_index(&self, id: u128) -> (r: Option<usize>)
        requires
            self.wf(),
        ensures
            match r {
                Some(i) => self@.questions.contains_key(id) && i < self.questions@.len()
                    && self.questions@[i as int]@.identifier == id
                    && self@.questions[id] == self.questions@[i as int]@,
                None => !self@.questions.contains_key(id),
            },
    {
        let mut i: usize = 0;
        while i < self.questions.len()
            invariant
                self.wf(),
                i <= self.questions@.len(),
                forall|j: int| 0 <= j < i ==> #[trigger] self.questions@[j]@.identifier != id,
            decreases self.questions@.len() - i,
        {
            if self.questions[i].identifier_value() == id {
                proof {
                    lemma_questions_map_value(self.questions@, i as int);
                }
                return Some(i);
            }
            i = i + 1;
        }
        proof {
            lemma_questions_map_domain(self.questions@, id);
        }
        None
    }

    /// Admits `question` into the registry. Fails with
    /// `UsesNonExistentTags`, carrying every unregistered tag the question
    /// references, when there is one; fails with `AlreadyExists` when a
    /// question under the same identifier is already admitted; otherwise
    /// inserts the question under its identifier and returns the identifier's
    /// canonical string rendering, under which `get_question` finds the
    /// question again. A failed admission mutates nothing.
    pub fn add_question(&mut self, question: Question) -> (r: Result<String, AddQuestionError>)
        requires
            old(self).wf(),
            question.wf(),
        ensures
            final(self).wf(),
            final(self)@.tags == old(self)@.tags,
            !question@.tags.subset_of(old(self)@.tags) ==> (match r {
                Err(AddQuestionError::UsesNonExistentTags(missing)) => str_set(missing@)
                    == question@.tags.difference(old(self)@.tags) && distinct_strs(missing@),
                _ => false,
            }) && final(self)@.questions == old(self)@.questions,
            question@.tags.subset_of(old(self)@.tags)
                && old(self)@.questions.contains_key(question@.identifier)
                ==> r == Err::<String, AddQuestionError>(AddQuestionError::AlreadyExists)
                && final(self)@.questions == old(self)@.questions,
            question@.tags.subset_of(old(self)@.tags)
                && !old(self)@.questions.contains_key(question@.identifier) ==> (match r {
                Ok(s) => s@ == identifier_string(question@.identifier)
                    && parsed_identifier(s@) == Some(question@.identifier),
                _ => false,
            }) && final(self)@.questions
                == old(self)@.questions.insert(question@.identifier, question@),
    {
        let question_tags = question.get_tags();
        let missing = missing_from(&self.tags, &question_tags);
        if missing.len() > 0 {
            proof {
                assert(seq_has_str(missing@, missing@[0]@));
                assert(str_set(missing@).contains(missing@[0]@));
                assert(!question@.tags.subset_of(self@.tags));
            }
            return Err(AddQuestionError::UsesNonExistentTags(missing));
        }
        proof {
            assert forall|x: Seq<char>| question@.tags.contains(x) implies self@.tags.contains(x) by {
                assert(!str_set(missing@).contains(x));
            }
        }
        let id = question.identifier_value();
        match self.find_index(id) {
            Some(_) => Err(AddQuestionError::AlreadyExists),
            None => {
                let rendered = identifier_to_string(id);
                proof {
                    lemma_questions_map_push(self.questions@, question);
                }
                self.questions.push(question);
                Ok(rendered)
            }
        }
    }

    /// Looks a question up by the string rendering of its identifier. Fails
    /// with `InvalidUUID` when the string is not a well-formed identifier,
    /// and with `DoesNotExist` when no admitted question carries the
    /// identifier; otherwise returns an independent snapshot of the admitted
    /// question's current state.
    pub fn get_question(&self, identifier: String) -> (r: Result<Question, GetQuestionError>)
        requires
            self.wf(),
        ensures
            parsed_identifier(identifier@) is None ==> r == Err::<Question, GetQuestionError>(
                GetQuestionError::InvalidUUID,
            ),
            parsed_identifier(identifier@) matches Some(id) ==> {
                &&& !self@.questions.contains_key(id) ==> r == Err::<Question, GetQuestionError>(
                    GetQuestionError::DoesNotExist,
                )
                &&& self@.questions.contains_key(id) ==> (match r {
                    Ok(q) => q@ == self@.questions[id] && q.wf(),
                    _ => false,
                })
            },
    {
        match parse_identifier(&identifier) {
            None => Err(GetQuestionError::InvalidUUID),
            Some(id) => match self.find_index(id) {
                None => Err(GetQuestionError::DoesNotExist),
                Some(i) => Ok(self.questions[i].clone()),
            },
        }
    }

    /// Merges every string of `new_contexts` into the context set of the
    /// question the identifier resolves to; a silent no-op when resolution
    /// fails.
    pub fn add_question_context(&mut self, identifier: String, new_contexts: Vec<String>)
        requires
            old(self).wf(),
        ensures
            final(self).wf(),
            final(self)@.tags == old(self)@.tags,
            resolved_question(old(self)@, identifier@) is None ==> final(self)@.questions == old(
                self,
            )@.questions,
            resolved_question(old(self)@, identifier@) matches Some(id) ==> final(self)@.questions
                == old(self)@.questions.insert(
                id,
                q_with_context(
                    old(self)@.questions[id],
                    old(self)@.questions[id].context.union(str_set(new_contexts@)),
                ),
            ),
    {
        match parse_identifier(&identifier) {
            None => {},
            Some(id) => match self.find_index(id) {
                None => {},
                Some(i) => {
                    let mut q = self.questions[i].clone();
                    let ghost q0 = q@;
                    proof {
                        assert(q0.context.union(str_set(new_contexts@.subrange(0, 0))) =~= q0.context);
                        assert(q@ =~= q_with_context(q0, q0.context.union(str_set(new_contexts@.subrange(0, 0)))));
                    }
                    let mut j: usize = 0;
                    while j < new_contexts.len()
                        invariant
                            j <= new_contexts@.len(),
                            q.wf(),
                            q@ == q_with_context(
                                q0,
                                q0.context.union(str_set(new_contexts@.subrange(0, j as int))),
                            ),
                        decreases new_contexts@.len() - j,
                    {
                        q.add_context(new_contexts[j].clone());
                        proof {
                            lemma_str_set_subrange_extend(new_contexts@, j as int);
                            assert(q0.context.union(
                                str_set(new_contexts@.subrange(0, j as int)),
                            ).insert(new_contexts@[j as int]@) =~= q0.context.union(
                                str_set(new_contexts@.subrange(0, j + 1 as int)),
                            ));
                            assert(q@ =~= q_with_context(
                                q0,
                                q0.context.union(str_set(new_contexts@.subrange(0, j + 1 as int))),
                            ));
                        }
                        j = j + 1;
                    }
                    proof {
                        assert(new_contexts@.subrange(0, new_contexts@.len() as int)
                            =~= new_contexts@);
                        lemma_questions_map_update(self.questions@, i as int, q);
                    }
                    let ghost qs_before = self.questions@;
                    self.questions.set(i, q);
                    proof {
                        assert forall|k: int|
                            0 <= k < self.questions@.len() implies (
                        #[trigger] self.questions@[k]).wf() by {
                            if k != i {
                                assert(self.questions@[k] == qs_before[k]);
                            }
                        }
                    }
                },
            },
        }
    }

    /// Merges every string of `new_options` into the option set of the
    /// question the identifier resolves to; a silent no-op when resolution
    /// fails.
    pub fn add_question_option(&mut self, identifier: String, new_options: Vec<String>)
        requires
            old(self).wf(),
        ensures
            final(self).wf(),
            final(self)@.tags == old(self)@.tags,
            resolved_question(old(self)@, identifier@) is None ==> final(self)@.questions == old(
                self,
            )@.questions,
            resolved_question(old(self)@, identifier@) matches Some(id) ==> final(self)@.questions
                == old(self)@.questions.insert(
                id,
                q_with_options(
                    old(self)@.questions[id],
                    old(self)@.questions[id].options.union(str_set(new_options@)),
                ),
            ),
    {
        match parse_identifier(&identifier) {
            None => {},
            Some(id) => match self.find_index(id) {
                None => {},
                Some(i) => {
                    let mut q = self.questions[i].clone();
                    let ghost q0 = q@;
                    proof {
                        assert(q0.options.union(str_set(new_options@.subrange(0, 0))) =~= q0.options);
                        assert(q@ =~= q_with_options(q0, q0.options.union(str_set(new_options@.subrange(0, 0)))));
                    }
                    let mut j: usize = 0;
                    while j < new_options.len()
                        invariant
                            j <= new_options@.len(),
                            q.wf(),
                            q@ == q_with_options(
                                q0,
                                q0.options.union(str_set(new_options@.subrange(0, j as int))),
                            ),
                        decreases new_options@.len() - j,
                    {
                        q.add_option(new_options[j].clone());
                        proof {
                            lemma_str_set_subrange_extend(new_options@, j as int);
                            assert(q0.options.union(
                                str_set(new_options@.subrange(0, j as int)),
                            ).insert(new_options@[j as int]@) =~= q0.options.union(
                                str_set(new_options@.subrange(0, j + 1 as int)),
                            ));
                            assert(q@ =~= q_with_options(
                                q0,
                                q0.options.union(str_set(new_options@.subrange(0, j + 1 as int))),
                            ));
                        }
                        j = j + 1;
                    }
                    proof {
                        assert(new_options@.subrange(0, new_options@.len() as int) =~= new_options@);
                        lemma_questions_map_update(self.questions@, i as int, q);
                    }
                    let ghost qs_before = self.questions@;
                    self.questions.set(i, q);
                    proof {
                        assert forall|k: int|
                            0 <= k < self.questions@.len() implies (
                        #[trigger] self.questions@[k]).wf() by {
                            if k != i {
                                assert(self.questions@[k] == qs_before[k]);
                            }
                        }
                    }
                },
            },
        }
    }

    /// Attaches `decision` to the question the identifier resolves to,
    /// provided that question has no decision yet; a silent no-op when
    /// resolution fails or a decision is already recorded, which preserves
    /// the recorded decision.
    pub fn set_question_decision(&mut self, identifier: String, decision: Decision)
        requires
            old(self).wf(),
        ensures
            final(self).wf(),
            final(self)@.tags == old(self)@.tags,
            resolved_question(old(self)@, identifier@) is None ==> final(self)@.questions == old(
                self,
            )@.questions,
            resolved_question(old(self)@, identifier@) matches Some(id) ==> {
                &&& old(self)@.questions[id].decision is Some ==> final(self)@.questions == old(
                    self,
                )@.questions
                &&& old(self)@.questions[id].decision is None ==> final(self)@.questions == old(
                    self,
                )@.questions.insert(id, q_with_decision(old(self)@.questions[id], decision@))
            },
    {
        match parse_identifier(&identifier) {
            None => {},
            Some(id) => match self.find_index(id) {
                None => {},
                Some(i) => {
                    let mut q = self.questions[i].clone();
                    match q.set_decision(decision) {
                        Ok(_) => {
                            proof {
                                lemma_questions_map_update(self.questions@, i as int, q);
                            }
                            let ghost qs_before = self.questions@;
                            self.questions.set(i, q);
                            proof {
                                assert forall|k: int|
                                    0 <= k < self.questions@.len() implies (
                                #[trigger] self.questions@[k]).wf() by {
                                    if k != i {
                                        assert(self.questions@[k] == qs_before[k]);
                                    }
                                }
                            }
                        },
                        Err(_) => {},
                    }
                },
            },
        }
    }
}

/// The identifier a lookup string resolves to in a registry: the parsed
/// identifier, provided an admitted question carries it. This is exactly the
/// resolution `get_question` performs; the silent mutation operations are
/// no-ops when it fails.
pub open spec fn resolved_question(r: RegistryView, s: Seq<char>) -> Option<u128> {
    match parsed_identifier(s) {
        Some(id) => if r.questions.contains_key(id) {
            Some(id)
        } else {
            None
        },
        None => None,
    }
}

/// An admitted question is found under its own identifier, unchanged: after
/// an admission, the questions map holds exactly the admitted question's
/// state at its identifier, whatever was admitted before.
pub proof fn lemma_admitted_question_found(questions: Map<u128, QuestionView>, q: QuestionView)
    ensures
        questions.insert(q.identifier, q).contains_key(q.identifier),
        questions.insert(q.identifier, q)[q.identifier] == q,
{
}

/// The strings of `candidates` that `tags` does not hold, each once.
fn missing_from(tags: &Vec<String>, candidates: &Vec<String>) -> (r: Vec<String>)
    ensures
        str_set(r@) == str_set(candidates@).difference(str_set(tags@)),
        distinct_strs(r@),
{
    let mut r: Vec<String> = Vec::new();
    let mut i: usize = 0;
    proof {
        assert(str_set(r@) =~= str_set(candidates@.subrange(0, 0)).difference(str_set(tags@)));
    }
    while i < candidates.len()
        invariant
            i <= candidates@.len(),
            str_set(r@) == str_set(candidates@.subrange(0, i as int)).difference(str_set(tags@)),
            distinct_strs(r@),
        decreases candidates@.len() - i,
    {
        if !contains_string(tags, &candidates[i]) {
            insert_string(&mut r, candidates[i].clone());
        }
        proof {
            lemma_str_set_subrange_extend(candidates@, i as int);
            assert_sets_equal!(str_set(r@)
                == str_set(candidates@.subrange(0, i + 1 as int)).difference(str_set(tags@)));
        }
        i = i + 1;
    }
    proof {
        assert(candidates@.subrange(0, candidates@.len() as int) =~= candidates@);
    }
    r
}

} // verus!
