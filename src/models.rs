//! Requests of the content features and the presentation service's messages.
use vstd::prelude::*;
use vstd::string::StringExecFns;

verus! {

/// A request for generated academic content.
pub struct AcademicContentRequest {
    pub grade_level: String,
    pub content_type: String,
    pub text_length: String,
    pub topic: String,
    pub standard_objective: String,
    pub additional_criteria: Option<String>,
    pub uploaded_content: Option<String>,
}

/// A request for generated multiple-choice questions.
pub struct McqGeneratorRequest {
    pub grade_level: String,
    pub number_of_questions: i32,
    pub topic: String,
    pub standard_objective: String,
    pub additional_criteria: Option<String>,
    pub uploaded_content: Option<String>,
}

/// A request for a generated presentation.
pub struct PresentationGeneratorRequest {
    pub grade_level: String,
    pub number_of_slides: i32,
    pub topic: String,
    pub standard_objective: String,
    pub additional_criteria: Option<String>,
    pub uploaded_content: Option<String>,
}

/// The outline of a generated presentation.
pub struct PresentationDetails {
    pub presentation_title: String,
    pub presentation_subtitle: String,
    pub image_search: String,
    pub slides: Vec<Slide>,
}

/// One slide of a generated presentation.
pub struct Slide {
    pub title: String,
    pub subtitle: String,
    pub image_search: String,
    pub content: Vec<SlideContent>,
}

/// One titled paragraph of a slide.
pub struct SlideContent {
    pub title: String,
    pub description: String,
}

/// The request sent to the presentation service.
pub struct MagicSlidesRequest {
    pub topic: String,
    pub extra_info_source: String,
    pub email: String,
    pub access_id: String,
    pub template: String,
    pub language: String,
    pub slide_count: i32,
    pub ai_images: bool,
    pub image_for_each_slide: bool,
    pub google_image: bool,
    pub google_text: bool,
    pub model: String,
    pub presentation_for: String,
}

/// The presentation service's answer.
pub struct MagicSlidesApiResponse {
    pub status: String,
    pub message: String,
    pub data: MagicSlidesData,
}

/// Where the generated presentation can be fetched, and its outline if sent.
pub struct MagicSlidesData {
    pub url: String,
    pub json: Option<MagicSlidesJson>,
    pub ppt_id: String,
    pub pdf_url: String,
}

/// The outline as the presentation service sends it.
pub struct MagicSlidesJson {
    pub presentation_title: String,
    pub presentation_subtitle: String,
    pub image_search: String,
    pub slides: Vec<MagicSlidesSlide>,
}

/// One slide as the presentation service sends it.
pub struct MagicSlidesSlide {
    pub title: String,
    pub subtitle: String,
    pub image_search: String,
    pub content: Vec<MagicSlidesSlideContent>,
}

/// One paragraph of a slide as the presentation service sends it.
pub struct MagicSlidesSlideContent {
    pub title: String,
    pub description: String,
}

/// A greeting.
pub struct HelloResponse {
    pub message: String,
}

/// The audience line of a presentation request: `grade <level> students`.
pub open spec fn audience_of(grade_level: Seq<char>) -> Seq<char> {
    "grade "@ + grade_level + " students"@
}

/// The request to the presentation service for a presentation request, with
/// the assembled prompt as extra information: the topic and slide count
/// carried over, the audience from the grade level, a bullet-point template
/// in English, no AI images, an image for each slide.
pub fn magic_slides_request(
    req: &PresentationGeneratorRequest,
    prompt: String,
    email: String,
    access_id: String,
) -> (r: MagicSlidesRequest)
    ensures
        r.topic@ == req.topic@,
        r.extra_info_source == prompt,
        r.email == email,
        r.access_id == access_id,
        r.template@ == "bullet-point1"@,
        r.language@ == "en"@,
        r.slide_count == req.number_of_slides,
        !r.ai_images,
        r.image_for_each_slide,
        !r.google_image,
        !r.google_text,
        r.model@ == "gpt-4"@,
        r.presentation_for@ == audience_of(req.grade_level@),
{
    let mut audience = String::from_str("grade ");
    audience.append(req.grade_level.as_str());
    audience.append(" students");
    MagicSlidesRequest {
        topic: req.topic.clone(),
        extra_info_source: prompt,
        email,
        access_id,
        template: String::from_str("bullet-point1"),
        language: String::from_str("en"),
        slide_count: req.number_of_slides,
        ai_images: false,
        image_for_each_slide: true,
        google_image: false,
        google_text: false,
        model: String::from_str("gpt-4"),
        presentation_for: audience,
    }
}

/// A slide's paragraphs, title and description each, as the service sent them.
pub open spec fn same_content(r: Seq<SlideContent>, s: Seq<MagicSlidesSlideContent>) -> bool {
    &&& r.len() == s.len()
    &&& forall|i: int| 0 <= i < r.len() ==> (#[trigger] r[i]).title == s[i].title && r[i].description == s[i].description
}

/// A slide with its paragraphs, as the service sent it.
pub open spec fn same_slide(r: Slide, s: MagicSlidesSlide) -> bool {
    &&& r.title == s.title
    &&& r.subtitle == s.subtitle
    &&& r.image_search == s.image_search
    &&& same_content(r.content@, s.content@)
}

/// The paragraph of a slide as the service sent it.
pub fn slide_content(c: MagicSlidesSlideContent) -> (r: SlideContent)
    ensures
        r.title == c.title,
        r.description == c.description,
{
    SlideContent { title: c.title, description: c.description }
}

/// A slide as the service sent it, its paragraphs in order.
pub fn slide(s: MagicSlidesSlide) -> (r: Slide)
    ensures
        same_slide(r, s),
{
    let MagicSlidesSlide { title, subtitle, image_search, content } = s;
    let ghost src = content@;
    let mut items = content;
    let mut out: Vec<SlideContent> = Vec::with_capacity(items.len());
    let mut rest: Vec<MagicSlidesSlideContent> = Vec::new();
    // take the paragraphs from the back, then restore their order
    while items.len() > 0
        invariant
            items@.len() + rest@.len() == src.len(),
            forall|i: int| 0 <= i < items@.len() ==> #[trigger] items@[i] == src[i],
            forall|i: int| 0 <= i < rest@.len() ==> #[trigger] rest@[i] == src[src.len() - 1 - i],
        decreases items@.len(),
    {
        let c = items.pop().unwrap();
        rest.push(c);
    }
    while rest.len() > 0
        invariant
            out@.len() + rest@.len() == src.len(),
            forall|i: int| 0 <= i < rest@.len() ==> #[trigger] rest@[i] == src[src.len() - 1 - i],
            forall|i: int| 0 <= i < out@.len() ==> (#[trigger] out@[i]).title == src[i].title
                && out@[i].description == src[i].description,
        decreases rest@.len(),
    {
        let c = rest.pop().unwrap();
        out.push(slide_content(c));
    }
    Slide { title, subtitle, image_search, content: out }
}

/// The outline of a presentation as the service sent it, its slides in order.
pub fn presentation_details(j: MagicSlidesJson) -> (r: PresentationDetails)
    ensures
        r.presentation_title == j.presentation_title,
        r.presentation_subtitle == j.presentation_subtitle,
        r.image_search == j.image_search,
        r.slides@.len() == j.slides@.len(),
        forall|i: int| 0 <= i < r.slides@.len() ==> same_slide(#[trigger] r.slides@[i], j.slides@[i]),
{
    let MagicSlidesJson { presentation_title, presentation_subtitle, image_search, slides } = j;
    let ghost src = slides@;
    let mut items = slides;
    let mut rest: Vec<MagicSlidesSlide> = Vec::new();
    let mut out: Vec<Slide> = Vec::with_capacity(items.len());
    while items.len() > 0
        invariant
            items@.len() + rest@.len() == src.len(),
            forall|i: int| 0 <= i < items@.len() ==> #[trigger] items@[i] == src[i],
            forall|i: int| 0 <= i < rest@.len() ==> #[trigger] rest@[i] == src[src.len() - 1 - i],
        decreases items@.len(),
    {
        let s = items.pop().unwrap();
        rest.push(s);
    }
    while rest.len() > 0
        invariant
            out@.len() + rest@.len() == src.len(),
            forall|i: int| 0 <= i < rest@.len() ==> #[trigger] rest@[i] == src[src.len() - 1 - i],
            forall|i: int| 0 <= i < out@.len() ==> same_slide(#[trigger] out@[i], src[i]),
        decreases rest@.len(),
    {
        let s = rest.pop().unwrap();
        out.push(slide(s));
    }
    PresentationDetails { presentation_title, presentation_subtitle, image_search, slides: out }
}

} // verus!
