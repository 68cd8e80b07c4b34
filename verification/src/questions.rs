use vstd::prelude::*;
use crate::json::{JsonValue, JsonV, jv_seq};
use crate::model::opt_jv;

verus! {

/// The kind of answer a question expects.
#[derive(PartialEq, Eq, Structural, Clone, Copy, Debug)]
pub enum QuestionKind {
    String,
    Bool,
    Int,
    Float,
    Choice,
}

/// A question of a component's setup: its answer is stored under `id`.
/// `show_if` is either a boolean or an object `{ "id": .., "equals": .. }`
/// that makes the question depend on an earlier answer.
#[derive(Debug)]
pub struct Question {
    pub id: String,
    pub prompt: String,
    pub kind: QuestionKind,
    pub required: bool,
    pub default: Option<JsonValue>,
    pub choices: Vec<JsonValue>,
    pub show_if: Option<JsonValue>,
    pub writes_to: Option<String>,
}

/// Mathematical model of a question.
pub struct QuestionV {
    pub id: Seq<char>,
    pub prompt: Seq<char>,
    pub kind: QuestionKind,
    pub required: bool,
    pub default: Option<JsonV>,
    pub choices: Seq<JsonV>,
    pub show_if: Option<JsonV>,
    pub writes_to: Option<Seq<char>>,
}

impl View for Question {
    type V = QuestionV;

    open spec fn view(&self) -> QuestionV {
        QuestionV {
            id: self.id@,
            prompt: self.prompt@,
            kind: self.kind,
            required: self.required,
            default: opt_jv(self.default),
            choices: jv_seq(self.choices@),
            show_if: opt_jv(self.show_if),
            writes_to: match self.writes_to {
                Some(s) => Some(s@),
                None => None,
            },
        }
    }
}

/// The models of a list of questions.
pub open spec fn questions_v(qs: Seq<Question>) -> Seq<QuestionV> {
    qs.map_values(|q: Question| q@)
}

} // verus!
