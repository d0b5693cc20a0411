//! The single-question form: one question with four answer slots, and the
//! greeting that is rendered from a template.

use vstd::prelude::*;

verus! {

/// What a `Question` of this form holds, as plain values.
pub struct QuestionView {
    pub question: Seq<char>,
    pub answer_1: Seq<char>,
    pub answer_2: Seq<char>,
    pub answer_3: Seq<char>,
    pub answer_4: Seq<char>,
    pub session: Option<Seq<char>>,
}

/// One question with up to four answers, and the session that it is stored
/// under, if any.
#[derive(Debug, Clone, PartialEq, Eq)]
pub struct Question {
    question: String,
    answer_1: String,
    answer_2: String,
    answer_3: String,
    answer_4: String,
    pub session: Option<String>,
}

impl View for Question {
    type V = QuestionView;

    closed spec fn view(&self) -> QuestionView {
        QuestionView {
            question: self.question@,
            answer_1: self.answer_1@,
            answer_2: self.answer_2@,
            answer_3: self.answer_3@,
            answer_4: self.answer_4@,
            session: self.session.deep_view(),
        }
    }
}

/// One vote of the single-question form: the value that was chosen.
#[derive(Debug, Clone, PartialEq, Eq)]
pub struct Vote {
    pub vote: String,
}

impl View for Vote {
    type V = Seq<char>;

    open spec fn view(&self) -> Seq<char> {
        self.vote@
    }
}

/// The template of the greeting.
pub open spec fn greeting_template() -> Seq<char> {
    "Hello {{name}}"@
}

/// The field that the template of the greeting refers to.
pub open spec fn greeting_field() -> Seq<char> {
    "name"@
}

/// The value that the greeting is rendered with.
pub open spec fn greeting_value() -> Seq<char> {
    "foo"@
}

/// The text that a handlebars registry without templates of its own renders
/// from `template` for an object whose one field `field` holds the string
/// `value`, where it renders one. Nothing says for which templates it does.
pub uninterp spec fn rendered(template: Seq<char>, field: Seq<char>, value: Seq<char>) -> Option<
    Seq<char>,
>;

#[verifier::external_type_specification]
#[verifier::external_body]
pub struct ExRenderError(handlebars::RenderError);

/// Renders `template` with `handlebars::Handlebars::render_template` on a
/// new registry, for the JSON object that has the one field `field` with the
/// string `value`. A text that comes out depends on these three alone. An
/// error may come on any input: where the template cannot be compiled or
/// rendered, and also where the parser runs into its limits, which are the
/// call budget of the process and the stack that is left.
#[verifier::external_body]
fn render_field(template: &str, field: &str, value: &str) -> (text: Result<
    String,
    handlebars::RenderError,
>)
    ensures
        text matches Ok(t) ==> rendered(template@, field@, value@) == Some(t@),
{
    let mut data = serde_json::Map::new();
    data.insert(field.to_string(), serde_json::Value::String(value.to_string()));
    handlebars::Handlebars::new().render_template(template, &serde_json::Value::Object(data))
}

/// The template could not be rendered.
#[derive(Debug, Clone, Copy, PartialEq, Eq, Structural)]
pub struct TemplateError {}

/// What the library hands out for an attempt to render: the text, or its own
/// error in place of the renderer's.
pub fn rendering(attempt: Result<String, handlebars::RenderError>) -> (text: Result<
    String,
    TemplateError,
>)
    ensures
        match attempt {
            Ok(rendered) => text == Ok::<String, TemplateError>(rendered),
            Err(_) => text == Err::<String, TemplateError>(TemplateError {  }),
        },
{
    match attempt {
        Ok(rendered) => Ok(rendered),
        Err(_) => Err(TemplateError {  }),
    }
}

impl Question {
    /// The form as it is before anything is filled in.
    pub fn new() -> (q: Question)
        ensures
            q@ == (QuestionView {
                question: "Question"@,
                answer_1: "Answer"@,
                answer_2: ""@,
                answer_3: ""@,
                answer_4: ""@,
                session: Some(""@),
            }),
    {
        Question {
            question: "Question".to_owned(),
            answer_1: "Answer".to_owned(),
            answer_2: "".to_owned(),
            answer_3: "".to_owned(),
            answer_4: "".to_owned(),
            session: Some("".to_owned()),
        }
    }

    /// The greeting: the template of the greeting rendered with its value,
    /// or an error where the renderer fails.
    pub fn generate() -> (text: Result<String, TemplateError>)
        ensures
            text matches Ok(t) ==> rendered(
                greeting_template(),
                greeting_field(),
                greeting_value(),
            ) == Some(t@),
    {
        rendering(render_field("Hello {{name}}", "name", "foo"))
    }

    /// The text of the question.
    pub fn question(&self) -> (text: &String)
        ensures
            text@ == self@.question,
    {
        &self.question
    }

    /// The four answers, in their order.
    pub fn answers(&self) -> (answers: [&String; 4])
        ensures
            answers[0]@ == self@.answer_1,
            answers[1]@ == self@.answer_2,
            answers[2]@ == self@.answer_3,
            answers[3]@ == self@.answer_4,
    {
        [&self.answer_1, &self.answer_2, &self.answer_3, &self.answer_4]
    }
}

} // verus!
