//! Questions and their write-once decisions.
//!
//! A `Question` is a pending decision: free-text content, a set of tags, a
//! growing set of context strings, a growing set of candidate options, and at
//! most one final `Decision`. A `Decision` is an immutable record of the
//! chosen option, the rationale, and the set of people who decided.

use vstd::prelude::*;
use crate::strset::{str_set, distinct_strs, insert_string, clone_strings, dedup_strings};
use crate::errors::SetDecisionError;
use crate::ident::fresh_identifier;

verus! {

/// The abstract value of a `Decision`: the chosen option, the rationale, and
/// the set of decision makers.
#[verifier::ext_equal]
pub ghost struct DecisionView {
    pub choice: Seq<char>,
    pub rationale: Seq<char>,
    pub decision_makers: Set<Seq<char>>,
}

/// The immutable resolution of a question: a chosen option, a rationale, and
/// the people who made the choice.
pub struct Decision {
    choice: String,
    rationale: String,
    decision_makers: Vec<String>,
}

impl View for Decision {
    type V = DecisionView;

    closed spec fn view(&self) -> DecisionView {
        DecisionView {
            choice: self.choice@,
            rationale: self.rationale@,
            decision_makers: str_set(self.decision_makers@),
        }
    }
}

impl Decision {
    /// Builds a decision from the chosen option, the rationale, and the
    /// decision makers; duplicate maker strings collapse, set-wise.
    pub fn new(choice: String, rationale: String, decision_makers: Vec<String>) -> (r: Decision)
        ensures
            r@.choice == choice@,
            r@.rationale == rationale@,
            r@.decision_makers == str_set(decision_makers@),
    {
        let makers = dedup_strings(decision_makers);
        Decision { choice, rationale, decision_makers: makers }
    }

    /// The chosen option.
    pub fn get_choice(&self) -> (r: String)
        ensures
            r@ == self@.choice,
    {
        self.choice.clone()
    }

    /// The rationale for the choice.
    pub fn get_rationale(&self) -> (r: String)
        ensures
            r@ == self@.rationale,
    {
        self.rationale.clone()
    }

    /// A copy of the decision makers.
    pub fn get_decision_makers(&self) -> (r: Vec<String>)
        ensures
            str_set(r@) == self@.decision_makers,
    {
        clone_strings(&self.decision_makers)
    }
}

impl Clone for Decision {
    fn clone(&self) -> (res: Self)
        ensures
            res@ == self@,
    {
        let res = Decision {
            choice: self.choice.clone(),
            rationale: self.rationale.clone(),
            decision_makers: clone_strings(&self.decision_makers),
        };
        proof {
            assert(res@ =~= self@);
        }
        res
    }
}

/// The abstract value of a `Question`.
#[verifier::ext_equal]
pub ghost struct QuestionView {
    pub identifier: u128,
    pub content: Seq<char>,
    pub tags: Set<Seq<char>>,
    pub context: Set<Seq<char>>,
    pub options: Set<Seq<char>>,
    pub decision: Option<DecisionView>,
}

/// The view of an optional decision.
pub open spec fn decision_view(d: Option<Decision>) -> Option<DecisionView> {
    match d {
        Some(dec) => Some(dec@),
        None => None,
    }
}

/// `q` with its context set replaced by `context`.
pub open spec fn q_with_context(q: QuestionView, context: Set<Seq<char>>) -> QuestionView {
    QuestionView {
        identifier: q.identifier,
        content: q.content,
        tags: q.tags,
        context,
        options: q.options,
        decision: q.decision,
    }
}

/// `q` with its option set replaced by `options`.
pub open spec fn q_with_options(q: QuestionView, options: Set<Seq<char>>) -> QuestionView {
    QuestionView {
        identifier: q.identifier,
        content: q.content,
        tags: q.tags,
        context: q.context,
        options,
        decision: q.decision,
    }
}

/// `q` resolved by the decision `d`.
pub open spec fn q_with_decision(q: QuestionView, d: DecisionView) -> QuestionView {
    QuestionView {
        identifier: q.identifier,
        content: q.content,
        tags: q.tags,
        context: q.context,
        options: q.options,
        decision: Some(d),
    }
}

/// A pending decision: content, tags, context, candidate options, and at most
/// one final decision.
pub struct Question {
    identifier: u128,
    content: String,
    tags: Vec<String>,
    context: Vec<String>,
    options: Vec<String>,
    decision: Option<Decision>,
}

impl View for Question {
    type V = QuestionView;

    closed spec fn view(&self) -> QuestionView {
        QuestionView {
            identifier: self.identifier,
            content: self.content@,
            tags: str_set(self.tags@),
            context: str_set(self.context@),
            options: str_set(self.options@),
            decision: decision_view(self.decision),
        }
    }
}

impl Question {
    /// The question's string collections hold no duplicates, so each abstract
    /// set has exactly one representative per member.
    pub closed spec fn wf(&self) -> bool {
        &&& distinct_strs(self.tags@)
        &&& distinct_strs(self.context@)
        &&& distinct_strs(self.options@)
    }

    /// Builds a standalone question with a freshly drawn identifier and no
    /// decision; duplicate strings in the given collections collapse,
    /// set-wise.
    pub fn new(content: String, tags: Vec<String>, context: Vec<String>, options: Vec<String>) -> (q: Question)
        ensures
            q.wf(),
            q@.content == content@,
            q@.tags == str_set(tags@),
            q@.context == str_set(context@),
            q@.options == str_set(options@),
            q@.decision is None,
    {
        Question {
            identifier: fresh_identifier(),
            content,
            tags: dedup_strings(tags),
            context: dedup_strings(context),
            options: dedup_strings(options),
            decision: None,
        }
    }

    /// The identifier the question was created with.
    pub(crate) fn identifier_value(&self) -> (r: u128)
        ensures
            r == self@.identifier,
    {
        self.identifier
    }

    /// The question's content.
    pub fn get_content(&self) -> (r: String)
        ensures
            r@ == self@.content,
    {
        self.content.clone()
    }

    /// A copy of the question's tags.
    pub fn get_tags(&self) -> (r: Vec<String>)
        ensures
            str_set(r@) == self@.tags,
            self.wf() ==> distinct_strs(r@),
    {
        clone_strings(&self.tags)
    }

    /// Adds one context string; a string already present changes nothing.
    pub fn add_context(&mut self, context_item: String)
        ensures
            final(self)@ == q_with_context(old(self)@, old(self)@.context.insert(context_item@)),
            old(self).wf() ==> final(self).wf(),
    {
        insert_string(&mut self.context, context_item);
        proof {
            assert(self@ =~= q_with_context(old(self)@, old(self)@.context.insert(context_item@)));
        }
    }

    /// A copy of the question's context strings.
    pub fn get_context(&self) -> (r: Vec<String>)
        ensures
            str_set(r@) == self@.context,
            self.wf() ==> distinct_strs(r@),
    {
        clone_strings(&self.context)
    }

    /// Adds one candidate option; a string already present changes nothing.
    pub fn add_option(&mut self, option: String)
        ensures
            final(self)@ == q_with_options(old(self)@, old(self)@.options.insert(option@)),
            old(self).wf() ==> final(self).wf(),
    {
        insert_string(&mut self.options, option);
        proof {
            assert(self@ =~= q_with_options(old(self)@, old(self)@.options.insert(option@)));
        }
    }

    /// A copy of the question's candidate options.
    pub fn get_options(&self) -> (r: Vec<String>)
        ensures
            str_set(r@) == self@.options,
            self.wf() ==> distinct_strs(r@),
    {
        clone_strings(&self.options)
    }

    /// Attaches `decision` if the question has none yet; otherwise fails and
    /// leaves the question, and its existing decision, untouched.
    pub fn set_decision(&mut self, decision: Decision) -> (r: Result<(), SetDecisionError>)
        ensures
            old(self)@.decision is None ==> r == Ok::<(), SetDecisionError>(())
                && final(self)@ == q_with_decision(old(self)@, decision@),
            old(self)@.decision is Some ==> r == Err::<(), SetDecisionError>(SetDecisionError::AlreadyExists)
                && *final(self) == *old(self),
            old(self).wf() ==> final(self).wf(),
    {
        match self.decision {
            None => {
                self.decision = Some(decision);
                proof {
                    assert(self@ =~= q_with_decision(old(self)@, decision@));
                }
                Ok(())
            }
            Some(_) => Err(SetDecisionError::AlreadyExists),
        }
    }

    /// A copy of the question's decision, if one has been set.
    pub fn get_decision(&self) -> (r: Option<Decision>)
        ensures
            decision_view(r) == self@.decision,
    {
        match &self.decision {
            Some(d) => Some(d.clone()),
            None => None,
        }
    }
}

impl Clone for Question {
    fn clone(&self) -> (res: Self)
        ensures
            res@ == self@,
            res.wf() == self.wf(),
    {
        let res = Question {
            identifier: self.identifier,
            content: self.content.clone(),
            tags: clone_strings(&self.tags),
            context: clone_strings(&self.context),
            options: clone_strings(&self.options),
            decision: match &self.decision {
                Some(d) => Some(d.clone()),
                None => None,
            },
        };
        proof {
            assert(res@ =~= self@);
        }
        res
    }
}

/// Adding a string that is already in an additive set changes nothing: in
/// particular, adding the same context or option string twice leaves the set
/// as one addition left it.
pub proof fn lemma_additive_insert_idempotent(s: Set<Seq<char>>, x: Seq<char>)
    ensures
        s.insert(x).insert(x) == s.insert(x),
{
    assert(s.insert(x).insert(x) =~= s.insert(x));
}

/// Merging the same strings into an additive set twice leaves the set as one
/// merge left it: the registry's context and option merges are idempotent.
pub proof fn lemma_additive_union_idempotent(s: Set<Seq<char>>, t: Set<Seq<char>>)
    ensures
        s.union(t).union(t) == s.union(t),
{
    assert(s.union(t).union(t) =~= s.union(t));
}

/// Write-once decision: setting a decision on an unresolved question records
/// exactly that decision, and the question then counts as resolved, so
/// `set_decision` refuses every later attempt and preserves the record.
pub proof fn lemma_decision_write_once(q: QuestionView, d: DecisionView)
    requires
        q.decision is None,
    ensures
        q_with_decision(q, d).decision == Some(d),
        q_with_decision(q, d).decision is Some,
{
}

} // verus!
