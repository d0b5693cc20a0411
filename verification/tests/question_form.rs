use poll_tally::question::{rendering, Question, TemplateError, Vote};

#[test]
fn new_form_has_placeholder_texts() {
    let form = Question::new();
    assert_eq!(form.question(), "Question");
    let answers = form.answers();
    assert_eq!(answers[0], "Answer");
    assert_eq!(answers[1], "");
    assert_eq!(answers[2], "");
    assert_eq!(answers[3], "");
    assert_eq!(form.session, Some(String::new()));
}

#[test]
fn greeting_is_rendered_from_the_template() {
    assert_eq!(Question::generate(), Ok("Hello foo".to_string()));
}

#[test]
fn rendering_keeps_the_text() {
    assert_eq!(rendering(Ok("Hello foo".to_string())), Ok("Hello foo".to_string()));
}

#[test]
fn rendering_hides_the_renderer_error() {
    let failure = handlebars::Handlebars::new().render_template("{{#if}}", &0);
    assert!(failure.is_err());
    assert_eq!(rendering(failure), Err(TemplateError {}));
}

#[test]
fn form_vote_holds_its_value() {
    let vote = Vote { vote: "Answer".to_string() };
    assert_eq!(vote.vote, "Answer");
}
