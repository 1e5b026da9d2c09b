//! The abstract prompting capability the engine drives, one raw answer per
//! interactive round-trip, and a scripted implementation for exercising the
//! engine without a terminal.

use vstd::prelude::*;

verus! {

/// One raw operator answer, as the prompting collaborator hands it back:
/// free text, a yes/no flag, one option index, or a set of option indices.
pub enum Answer {
    Text(String),
    Flag(bool),
    Index(usize),
    Indices(Vec<usize>),
}

/// The mathematical model of one raw answer.
pub enum AnswerModel {
    Text(Seq<char>),
    Flag(bool),
    Index(usize),
    Indices(Seq<usize>),
}

impl View for Answer {
    type V = AnswerModel;

    open spec fn view(&self) -> AnswerModel {
        match self {
            Answer::Text(s) => AnswerModel::Text(s@),
            Answer::Flag(b) => AnswerModel::Flag(*b),
            Answer::Index(i) => AnswerModel::Index(*i),
            Answer::Indices(v) => AnswerModel::Indices(v@),
        }
    }
}

/// The distinct outcome of an operator cancelling a prompt mid-run.
#[derive(Debug)]
pub struct PromptAborted;

/// The model of a prompter's remaining answers: what it will still give, in
/// order. Ghost data only; an implementation outside the verified world backs
/// `pending` with an unreachable body, since ghost code never runs.
pub type PendingAnswers = Seq<AnswerModel>;

/// The prompting capability: each method performs one interactive round-trip
/// and hands back the raw answer, or `Err(PromptAborted)` when the operator
/// cancels.
///
/// A prompter is modelled by `pending`, the sequence of answers it will still
/// give, in order. An exhausted sequence, or an answer whose shape does not
/// match the question asked, models cancellation: the round-trip yields
/// `Err(PromptAborted)` and the engine abandons the whole run.
pub trait Prompter {
    /// The answers this prompter will still give, in order.
    spec fn pending(&self) -> PendingAnswers;

    /// Ask a free-text question; `placeholder` is a hint shown in the input.
    fn ask_text(&mut self, question: &str, placeholder: &str) -> (r: Result<
        String,
        PromptAborted,
    >)
        ensures
            match r {
                Ok(s) => {
                    &&& old(self).pending().len() > 0
                    &&& old(self).pending()[0] == AnswerModel::Text(s@)
                    &&& final(self).pending() == old(self).pending().drop_first()
                },
                Err(_) => {
                    &&& old(self).pending().len() == 0 || !(old(self).pending()[0] is Text)
                    &&& final(self).pending() == old(self).pending()
                },
            },
    ;

    /// Ask a yes/no question.
    fn ask_confirm(&mut self, question: &str) -> (r: Result<bool, PromptAborted>)
        ensures
            match r {
                Ok(b) => {
                    &&& old(self).pending().len() > 0
                    &&& old(self).pending()[0] == AnswerModel::Flag(b)
                    &&& final(self).pending() == old(self).pending().drop_first()
                },
                Err(_) => {
                    &&& old(self).pending().len() == 0 || !(old(self).pending()[0] is Flag)
                    &&& final(self).pending() == old(self).pending()
                },
            },
    ;

    /// Present `options` as a selectable list; the answer is one index.
    fn ask_select(&mut self, question: &str, options: &Vec<String>) -> (r: Result<
        usize,
        PromptAborted,
    >)
        ensures
            match r {
                Ok(i) => {
                    &&& old(self).pending().len() > 0
                    &&& old(self).pending()[0] == AnswerModel::Index(i)
                    &&& final(self).pending() == old(self).pending().drop_first()
                },
                Err(_) => {
                    &&& old(self).pending().len() == 0 || !(old(self).pending()[0] is Index)
                    &&& final(self).pending() == old(self).pending()
                },
            },
    ;

    /// Present `options` as a multi-selectable list; the answer is the set of
    /// selected indices, in whatever order the prompter reports them.
    fn ask_multi_select(&mut self, question: &str, options: &Vec<String>) -> (r: Result<
        Vec<usize>,
        PromptAborted,
    >)
        ensures
            match r {
                Ok(v) => {
                    &&& old(self).pending().len() > 0
                    &&& old(self).pending()[0] == AnswerModel::Indices(v@)
                    &&& final(self).pending() == old(self).pending().drop_first()
                },
                Err(_) => {
                    &&& old(self).pending().len() == 0 || !(old(self).pending()[0] is Indices)
                    &&& final(self).pending() == old(self).pending()
                },
            },
    ;
}

/// A prompter that answers from a fixed script, for exercising the engine
/// without a terminal. Questions are ignored; answers come back in script
/// order, and an exhausted script behaves as a cancellation.
pub struct ScriptedPrompter {
    answers: Vec<Answer>,
    pos: usize,
}

impl ScriptedPrompter {
    /// Builds a prompter that will give exactly `answers`, in order.
    pub fn new(answers: Vec<Answer>) -> (r: ScriptedPrompter)
        ensures
            r.pending() == answers@.map_values(|a: Answer| a@),
    {
        let r = ScriptedPrompter { answers, pos: 0 };
        proof {
            assert(r.pending() =~= r.answers@.map_values(|a: Answer| a@));
        }
        r
    }

    proof fn lemma_advance(pre: ScriptedPrompter, post: ScriptedPrompter)
        requires
            pre.pos < pre.answers@.len(),
            post.answers == pre.answers,
            post.pos == pre.pos + 1,
        ensures
            post.pending() == pre.pending().drop_first(),
            pre.pending().len() > 0,
            pre.pending()[0] == pre.answers@[pre.pos as int]@,
    {
        let m = pre.answers@.map_values(|a: Answer| a@);
        assert(post.pending() =~= pre.pending().drop_first());
        assert(pre.pending()[0] == m[pre.pos as int]);
    }
}

impl Prompter for ScriptedPrompter {
    closed spec fn pending(&self) -> Seq<AnswerModel> {
        if self.pos <= self.answers@.len() {
            self.answers@.map_values(|a: Answer| a@).skip(self.pos as int)
        } else {
            Seq::empty()
        }
    }

    fn ask_text(&mut self, question: &str, placeholder: &str) -> (r: Result<
        String,
        PromptAborted,
    >) {
        if self.pos < self.answers.len() {
            match &self.answers[self.pos] {
                Answer::Text(s) => {
                    let out = s.clone();
                    let ghost pre = *self;
                    self.pos = self.pos + 1;
                    proof {
                        Self::lemma_advance(pre, *self);
                    }
                    Ok(out)
                },
                _ => Err(PromptAborted),
            }
        } else {
            Err(PromptAborted)
        }
    }

    fn ask_confirm(&mut self, question: &str) -> (r: Result<bool, PromptAborted>) {
        if self.pos < self.answers.len() {
            match &self.answers[self.pos] {
                Answer::Flag(b) => {
                    let out = *b;
                    let ghost pre = *self;
                    self.pos = self.pos + 1;
                    proof {
                        Self::lemma_advance(pre, *self);
                    }
                    Ok(out)
                },
                _ => Err(PromptAborted),
            }
        } else {
            Err(PromptAborted)
        }
    }

    fn ask_select(&mut self, question: &str, options: &Vec<String>) -> (r: Result<
        usize,
        PromptAborted,
    >) {
        if self.pos < self.answers.len() {
            match &self.answers[self.pos] {
                Answer::Index(i) => {
                    let out = *i;
                    let ghost pre = *self;
                    self.pos = self.pos + 1;
                    proof {
                        Self::lemma_advance(pre, *self);
                    }
                    Ok(out)
                },
                _ => Err(PromptAborted),
            }
        } else {
            Err(PromptAborted)
        }
    }

    fn ask_multi_select(&mut self, question: &str, options: &Vec<String>) -> (r: Result<
        Vec<usize>,
        PromptAborted,
    >) {
        if self.pos < self.answers.len() {
            match &self.answers[self.pos] {
                Answer::Indices(v) => {
                    let out = v.clone();
                    let ghost pre = *self;
                    self.pos = self.pos + 1;
                    proof {
                        Self::lemma_advance(pre, *self);
                        assert(out@ == v@);
                    }
                    Ok(out)
                },
                _ => Err(PromptAborted),
            }
        } else {
            Err(PromptAborted)
        }
    }
}

} // verus!
