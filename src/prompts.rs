//! The prompts of the content features: the request's fields under their
//! labels after the feature's system prompt, and the retrieved chunks as
//! context.
use crate::chunker::string_texts;
use crate::models::{AcademicContentRequest, McqGeneratorRequest, PresentationGeneratorRequest};
use crate::text::string_from_chars;
use vstd::prelude::*;
use vstd::string::StringExecFns;

verus! {

/// The decimal digit of a value below 10.
pub open spec fn digit_char(d: nat) -> char {
    ((d + 48) as u8) as char
}

/// The decimal digits of a natural number, most significant first.
pub open spec fn digits_of(n: nat) -> Seq<char>
    decreases n,
{
    if n < 10 {
        seq![digit_char(n)]
    } else {
        digits_of(n / 10) + seq![digit_char(n % 10)]
    }
}

/// The decimal form of an integer, with a minus sign when negative.
pub open spec fn decimal_of(n: int) -> Seq<char> {
    if n < 0 {
        seq!['-'] + digits_of((-n) as nat)
    } else {
        digits_of(n as nat)
    }
}

/// The decimal form of an integer.
pub fn decimal(n: i32) -> (r: String)
    ensures
        r@ == decimal_of(n as int),
{
    let m: u64 = if n < 0 { (-(n as i64)) as u64 } else { n as u64 };
    let mut rem: u64 = m;
    let mut acc: Vec<char> = Vec::new();
    loop
        invariant_except_break
            rem <= m,
            digits_of(m as nat) == digits_of(rem as nat) + acc@,
        ensures
            digits_of(m as nat) == acc@,
        decreases rem,
    {
        let d = ((rem % 10) as u8 + 48) as char;
        acc.insert(0, d);
        if rem < 10 {
            assert(digits_of(m as nat) =~= acc@);
            break;
        }
        assert(digits_of(rem as nat) == digits_of((rem / 10) as nat) + seq![digit_char((rem % 10) as nat)]);
        assert(digits_of(m as nat) =~= digits_of((rem / 10) as nat) + acc@);
        rem = rem / 10;
    }
    if n < 0 {
        let mut cs: Vec<char> = Vec::new();
        cs.push('-');
        let mut rest = acc;
        cs.append(&mut rest);
        assert(cs@ =~= decimal_of(n as int));
        string_from_chars(cs.as_slice())
    } else {
        string_from_chars(acc.as_slice())
    }
}

/// The additional criteria of a request, or `None` when there are none.
pub open spec fn criteria_of(c: Option<String>) -> Seq<char> {
    match c {
        Some(s) => s@,
        None => "None"@,
    }
}

/// The chunk texts, one per line.
pub open spec fn join_lines(s: Seq<Seq<char>>) -> Seq<char>
    decreases s.len(),
{
    if s.len() == 0 {
        seq![]
    } else if s.len() == 1 {
        s[0]
    } else {
        join_lines(s.drop_last()) + "\n"@ + s.last()
    }
}

/// The prompt for academic content.
pub open spec fn academic_prompt_of(system: Seq<char>, r: AcademicContentRequest) -> Seq<char> {
    system + "\n\nGrade level: "@ + r.grade_level@ + "\nLength: "@ + r.text_length@ + "\nTopic: "@ + r.topic@
        + "\nStandard objective: "@ + r.standard_objective@ + "\nAdditional criteria: "@
        + criteria_of(r.additional_criteria)
}

/// The prompt for multiple-choice questions.
pub open spec fn mcq_prompt_of(system: Seq<char>, r: McqGeneratorRequest) -> Seq<char> {
    system + "\n\nGrade level: "@ + r.grade_level@ + "\n Number Of Questions: "@
        + decimal_of(r.number_of_questions as int) + "\nTopic: "@ + r.topic@ + "\nStandard objective: "@
        + r.standard_objective@ + "\nAdditional criteria: "@ + criteria_of(r.additional_criteria)
}

/// The prompt for a presentation.
pub open spec fn presentation_prompt_of(system: Seq<char>, r: PresentationGeneratorRequest) -> Seq<char> {
    system + "\n\nGrade level: "@ + r.grade_level@ + "\n Number Of Slides: "@
        + decimal_of(r.number_of_slides as int) + "\nTopic: "@ + r.topic@ + "\nStandard objective: "@
        + r.standard_objective@ + "\nAdditional criteria: "@ + criteria_of(r.additional_criteria)
}

/// A prompt followed by the retrieved context.
pub open spec fn grounded_prompt_of(base: Seq<char>, context: Seq<char>) -> Seq<char> {
    base + "\n\nRelevant context from uploaded content:\n"@ + context
}

fn criteria(c: &Option<String>) -> (r: &str)
    ensures
        r@ == criteria_of(*c),
{
    match c {
        Some(s) => s.as_str(),
        None => "None",
    }
}

/// The retrieved chunks as context, one per line.
pub fn join_context(chunks: &Vec<String>) -> (r: String)
    ensures
        r@ == join_lines(string_texts(chunks@)),
{
    let ghost cs = string_texts(chunks@);
    let mut out = String::new();
    let mut i: usize = 0;
    assert(cs.take(0) =~= Seq::<Seq<char>>::empty());
    while i < chunks.len()
        invariant
            cs == string_texts(chunks@),
            i <= chunks@.len(),
            out@ == join_lines(cs.take(i as int)),
        decreases chunks@.len() - i,
    {
        assert(cs.take(i + 1).drop_last() =~= cs.take(i as int));
        assert(cs[i as int] == chunks@[i as int]@);
        if i > 0 {
            out.append("\n");
        } else {
            assert(out@ =~= Seq::<char>::empty());
        }
        out.append(chunks[i].as_str());
        proof {
            if i == 0 {
                assert(out@ =~= join_lines(cs.take(1)));
            } else {
                assert(out@ =~= join_lines(cs.take(i + 1)));
            }
        }
        i += 1;
    }
    assert(cs.take(i as int) =~= cs);
    out
}

/// The prompt for academic content: the system prompt, then the request's
/// fields under their labels.
pub fn academic_prompt(system: &str, req: &AcademicContentRequest) -> (r: String)
    ensures
        r@ == academic_prompt_of(system@, *req),
{
    let mut p = String::from_str(system);
    p.append("\n\nGrade level: ");
    p.append(req.grade_level.as_str());
    p.append("\nLength: ");
    p.append(req.text_length.as_str());
    p.append("\nTopic: ");
    p.append(req.topic.as_str());
    p.append("\nStandard objective: ");
    p.append(req.standard_objective.as_str());
    p.append("\nAdditional criteria: ");
    p.append(criteria(&req.additional_criteria));
    p
}

/// The prompt for multiple-choice questions: the system prompt, then the
/// request's fields under their labels.
pub fn mcq_prompt(system: &str, req: &McqGeneratorRequest) -> (r: String)
    ensures
        r@ == mcq_prompt_of(system@, *req),
{
    let count = decimal(req.number_of_questions);
    let mut p = String::from_str(system);
    p.append("\n\nGrade level: ");
    p.append(req.grade_level.as_str());
    p.append("\n Number Of Questions: ");
    p.append(count.as_str());
    p.append("\nTopic: ");
    p.append(req.topic.as_str());
    p.append("\nStandard objective: ");
    p.append(req.standard_objective.as_str());
    p.append("\nAdditional criteria: ");
    p.append(criteria(&req.additional_criteria));
    p
}

/// The prompt for a presentation: the system prompt, then the request's
/// fields under their labels.
pub fn presentation_prompt(system: &str, req: &PresentationGeneratorRequest) -> (r: String)
    ensures
        r@ == presentation_prompt_of(system@, *req),
{
    let count = decimal(req.number_of_slides);
    let mut p = String::from_str(system);
    p.append("\n\nGrade level: ");
    p.append(req.grade_level.as_str());
    p.append("\n Number Of Slides: ");
    p.append(count.as_str());
    p.append("\nTopic: ");
    p.append(req.topic.as_str());
    p.append("\nStandard objective: ");
    p.append(req.standard_objective.as_str());
    p.append("\nAdditional criteria: ");
    p.append(criteria(&req.additional_criteria));
    p
}

/// A prompt followed by the retrieved context.
pub fn grounded_prompt(base: &str, context: &str) -> (r: String)
    ensures
        r@ == grounded_prompt_of(base@, context@),
{
    let mut p = String::from_str(base);
    p.append("\n\nRelevant context from uploaded content:\n");
    p.append(context);
    p
}

} // verus!
