use rag_core::models::{
    magic_slides_request, presentation_details, AcademicContentRequest, MagicSlidesJson, MagicSlidesSlide,
    MagicSlidesSlideContent, McqGeneratorRequest, PresentationGeneratorRequest,
};
use rag_core::prompts::{academic_prompt, decimal, grounded_prompt, join_context, mcq_prompt, presentation_prompt};

fn presentation_request() -> PresentationGeneratorRequest {
    PresentationGeneratorRequest {
        grade_level: "5".to_string(),
        number_of_slides: 12,
        topic: "Volcanoes".to_string(),
        standard_objective: "Earth science".to_string(),
        additional_criteria: None,
        uploaded_content: Some("Lava is hot.".to_string()),
    }
}

#[test]
fn decimal_forms() {
    assert_eq!(decimal(0), "0");
    assert_eq!(decimal(7), "7");
    assert_eq!(decimal(10), "10");
    assert_eq!(decimal(-305), "-305");
    assert_eq!(decimal(i32::MAX), "2147483647");
    assert_eq!(decimal(i32::MIN), "-2147483648");
}

#[test]
fn context_is_one_chunk_per_line() {
    assert_eq!(join_context(&vec![]), "");
    assert_eq!(join_context(&vec!["a".to_string()]), "a");
    assert_eq!(join_context(&vec!["a".to_string(), "b c".to_string(), "d".to_string()]), "a\nb c\nd");
}

#[test]
fn mcq_prompt_lists_the_fields() {
    let req = McqGeneratorRequest {
        grade_level: "7".to_string(),
        number_of_questions: 10,
        topic: "Fractions".to_string(),
        standard_objective: "Add fractions".to_string(),
        additional_criteria: Some("Use pizzas".to_string()),
        uploaded_content: None,
    };
    assert_eq!(
        mcq_prompt("SYS", &req),
        "SYS\n\nGrade level: 7\n Number Of Questions: 10\nTopic: Fractions\nStandard objective: Add fractions\nAdditional criteria: Use pizzas"
    );
}

#[test]
fn presentation_prompt_without_criteria_says_none() {
    assert_eq!(
        presentation_prompt("SYS", &presentation_request()),
        "SYS\n\nGrade level: 5\n Number Of Slides: 12\nTopic: Volcanoes\nStandard objective: Earth science\nAdditional criteria: None"
    );
}

#[test]
fn academic_prompt_lists_the_fields() {
    let req = AcademicContentRequest {
        grade_level: "9".to_string(),
        content_type: "essay".to_string(),
        text_length: "short".to_string(),
        topic: "Rivers".to_string(),
        standard_objective: "Geography".to_string(),
        additional_criteria: None,
        uploaded_content: None,
    };
    assert_eq!(
        academic_prompt("SYS", &req),
        "SYS\n\nGrade level: 9\nLength: short\nTopic: Rivers\nStandard objective: Geography\nAdditional criteria: None"
    );
}

#[test]
fn grounded_prompt_appends_context() {
    assert_eq!(
        grounded_prompt("base", "a\nb"),
        "base\n\nRelevant context from uploaded content:\na\nb"
    );
}

#[test]
fn slides_request_carries_the_request() {
    let r = magic_slides_request(&presentation_request(), "prompt".to_string(), "me@example.com".to_string(), "id-1".to_string());
    assert_eq!(r.topic, "Volcanoes");
    assert_eq!(r.extra_info_source, "prompt");
    assert_eq!(r.email, "me@example.com");
    assert_eq!(r.access_id, "id-1");
    assert_eq!(r.template, "bullet-point1");
    assert_eq!(r.language, "en");
    assert_eq!(r.slide_count, 12);
    assert!(!r.ai_images && r.image_for_each_slide && !r.google_image && !r.google_text);
    assert_eq!(r.model, "gpt-4");
    assert_eq!(r.presentation_for, "grade 5 students");
}

#[test]
fn outline_keeps_slide_order() {
    let content = |t: &str| MagicSlidesSlideContent { title: t.to_string(), description: format!("about {}", t) };
    let slide = |t: &str, cs: Vec<MagicSlidesSlideContent>| MagicSlidesSlide {
        title: t.to_string(),
        subtitle: format!("{} sub", t),
        image_search: format!("{} image", t),
        content: cs,
    };
    let json = MagicSlidesJson {
        presentation_title: "Title".to_string(),
        presentation_subtitle: "Sub".to_string(),
        image_search: "img".to_string(),
        slides: vec![slide("one", vec![content("x"), content("y")]), slide("two", vec![])],
    };
    let d = presentation_details(json);
    assert_eq!(d.presentation_title, "Title");
    assert_eq!(d.presentation_subtitle, "Sub");
    assert_eq!(d.image_search, "img");
    assert_eq!(d.slides.len(), 2);
    assert_eq!(d.slides[0].title, "one");
    assert_eq!(d.slides[0].subtitle, "one sub");
    assert_eq!(d.slides[0].content.len(), 2);
    assert_eq!(d.slides[0].content[0].title, "x");
    assert_eq!(d.slides[0].content[1].description, "about y");
    assert_eq!(d.slides[1].title, "two");
    assert!(d.slides[1].content.is_empty());
}
