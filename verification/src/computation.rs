//! What the scores of an assessment are computed from: for each parameter that
//! the indicator applies, the answer selected for each of its questions and
//! that answer's score, with the weights of question and parameter.
//!
//! The arithmetic itself (a parameter's score is the sum of its answers'
//! scores times the questions' weights; the total is the sum of the parameter
//! scores times their weights, divided by five) is carried out on `f64` values
//! outside this library; every decision that precedes it is made here.
use vstd::prelude::*;

use crate::spec_loader::{
    config_with_id, lemma_parameter_with_id_matches, parameter_with_id, IndicatorSpecRepository, ParameterApplicationView,
    ParameterSpec, ParameterSpecView, QuestionSpec, QuestionSpecView,
};
use crate::text::str_eq;

verus! {

/// An assessment: the indicator it is for and the answers given per parameter.
pub struct AssessmentPayload {
    pub indicator_specification_id: String,
    pub parameter_assessments: Vec<PayloadParameterAssessment>,
}

/// The answers given for one parameter.
pub struct PayloadParameterAssessment {
    pub parameter_id: String,
    pub question_answers: Vec<PayloadQuestionAnswer>,
}

/// The answer given to one question, if any.
pub struct PayloadQuestionAnswer {
    pub question_id: String,
    pub selected_answer_id: Option<String>,
}

/// The ways in which computing a result fails.
pub enum ComputationError {
    InvalidPayload(serde_json::Error),
    UnknownIndicator(String),
    UnknownParameter(String),
}

/// What one question contributes: the answer selected for it, the score of that
/// answer where the question offers it, and the question's weight.
pub struct QuestionSelection {
    pub question_id: String,
    pub selected_answer_id: Option<String>,
    pub answer_score: Option<String>,
    pub weight: String,
}

pub struct QuestionSelectionView {
    pub question_id: Seq<char>,
    pub selected_answer_id: Option<Seq<char>>,
    pub answer_score: Option<Seq<char>>,
    pub weight: Seq<char>,
}

pub open spec fn opt_view(o: Option<String>) -> Option<Seq<char>> {
    match o {
        Some(s) => Some(s@),
        None => None,
    }
}

impl View for QuestionSelection {
    type V = QuestionSelectionView;

    open spec fn view(&self) -> QuestionSelectionView {
        QuestionSelectionView {
            question_id: self.question_id@,
            selected_answer_id: opt_view(self.selected_answer_id),
            answer_score: opt_view(self.answer_score),
            weight: self.weight@,
        }
    }
}

/// What one applied parameter contributes: its questions' selections and the
/// weight with which the indicator applies it.
pub struct ParameterSelection {
    pub parameter_id: String,
    pub application_weight: String,
    pub question_selections: Vec<QuestionSelection>,
}

pub struct ParameterSelectionView {
    pub parameter_id: Seq<char>,
    pub application_weight: Seq<char>,
    pub question_selections: Seq<QuestionSelectionView>,
}

impl View for ParameterSelection {
    type V = ParameterSelectionView;

    open spec fn view(&self) -> ParameterSelectionView {
        ParameterSelectionView {
            parameter_id: self.parameter_id@,
            application_weight: self.application_weight@,
            question_selections: self.question_selections@.map_values(|q: QuestionSelection| q@),
        }
    }
}

/// The answers given for the parameter `id`: those of the last assessment of
/// it, as a later assessment of the same parameter replaces an earlier one.
pub open spec fn answers_for_parameter(
    assessments: Seq<PayloadParameterAssessment>,
    id: Seq<char>,
) -> Option<PayloadParameterAssessment>
    decreases assessments.len(),
{
    if assessments.len() == 0 {
        None
    } else if assessments.last().parameter_id@ == id {
        Some(assessments.last())
    } else {
        answers_for_parameter(assessments.drop_last(), id)
    }
}

/// The answer given to the question `id`: the last one given to it.
pub open spec fn answer_for_question(answers: Seq<PayloadQuestionAnswer>, id: Seq<char>) -> Option<
    PayloadQuestionAnswer,
>
    decreases answers.len(),
{
    if answers.len() == 0 {
        None
    } else if answers.last().question_id@ == id {
        Some(answers.last())
    } else {
        answer_for_question(answers.drop_last(), id)
    }
}

/// The score of the answer option `id`: that of the last option with that id.
pub open spec fn option_score(options: Seq<(Seq<char>, Seq<char>)>, id: Seq<char>) -> Option<Seq<char>>
    decreases options.len(),
{
    if options.len() == 0 {
        None
    } else if options.last().0 == id {
        Some(options.last().1)
    } else {
        option_score(options.drop_last(), id)
    }
}

/// The selection for the question `q`, given the answers to its parameter.
pub open spec fn question_selection_spec(q: QuestionSpecView, answers: Seq<PayloadQuestionAnswer>) -> QuestionSelectionView {
    let selected = match answer_for_question(answers, q.id) {
        Some(a) => opt_view(a.selected_answer_id),
        None => None,
    };
    QuestionSelectionView {
        question_id: q.id,
        selected_answer_id: selected,
        answer_score: match selected {
            Some(id) => option_score(q.answer_options, id),
            None => None,
        },
        weight: q.weight,
    }
}

/// The answers in `assessment`, or none where there is no assessment.
pub open spec fn given_answers(assessment: Option<PayloadParameterAssessment>) -> Seq<PayloadQuestionAnswer> {
    match assessment {
        Some(a) => a.question_answers@,
        None => Seq::empty(),
    }
}

/// The selection for the parameter `p`, applied with `weight`.
pub open spec fn parameter_selection_spec(
    p: ParameterSpecView,
    assessment: Option<PayloadParameterAssessment>,
    weight: Seq<char>,
) -> ParameterSelectionView {
    ParameterSelectionView {
        parameter_id: p.id,
        application_weight: weight,
        question_selections: p.questions.map_values(
            |q: QuestionSpecView| question_selection_spec(q, given_answers(assessment)),
        ),
    }
}

/// The selections for `applications`, in order, or the reference of the first
/// application whose parameter is not specified.
pub open spec fn selections_spec(
    parameters: Seq<ParameterSpecView>,
    applications: Seq<ParameterApplicationView>,
    assessments: Seq<PayloadParameterAssessment>,
) -> Result<Seq<ParameterSelectionView>, Seq<char>>
    decreases applications.len(),
{
    if applications.len() == 0 {
        Ok(Seq::empty())
    } else {
        match selections_spec(parameters, applications.drop_last(), assessments) {
            Err(e) => Err(e),
            Ok(before) => {
                let application = applications.last();
                match parameter_with_id(parameters, application.parameter_ref) {
                    None => Err(application.parameter_ref),
                    Some(p) => Ok(
                        before.push(
                            parameter_selection_spec(
                                p,
                                answers_for_parameter(assessments, application.parameter_ref),
                                application.weight,
                            ),
                        ),
                    ),
                }
            },
        }
    }
}

/// The answer given to the question `id`, among `answers`.
fn find_answer<'a>(answers: &'a Vec<PayloadQuestionAnswer>, id: &str) -> (r: Option<
    &'a PayloadQuestionAnswer,
>)
    ensures
        match r {
            Some(a) => answer_for_question(answers@, id@) == Some(*a),
            None => answer_for_question(answers@, id@) is None,
        },
{
    let mut i: usize = answers.len();
    assert(answers@.take(i as int) =~= answers@);
    while i > 0
        invariant
            i <= answers@.len(),
            answer_for_question(answers@, id@) == answer_for_question(answers@.take(i as int), id@),
        decreases i,
    {
        assert(answers@.take(i as int).last() == answers@[i - 1]);
        if str_eq(answers[i - 1].question_id.as_str(), id) {
            return Some(&answers[i - 1]);
        }
        assert(answers@.take(i as int).drop_last() =~= answers@.take(i - 1));
        i = i - 1;
    }
    None
}

/// The assessment of the parameter `id`, among `assessments`.
fn find_parameter_assessment<'a>(assessments: &'a Vec<PayloadParameterAssessment>, id: &str) -> (r:
    Option<&'a PayloadParameterAssessment>)
    ensures
        match r {
            Some(a) => answers_for_parameter(assessments@, id@) == Some(*a),
            None => answers_for_parameter(assessments@, id@) is None,
        },
{
    let mut i: usize = assessments.len();
    assert(assessments@.take(i as int) =~= assessments@);
    while i > 0
        invariant
            i <= assessments@.len(),
            answers_for_parameter(assessments@, id@) == answers_for_parameter(
                assessments@.take(i as int),
                id@,
            ),
        decreases i,
    {
        assert(assessments@.take(i as int).last() == assessments@[i - 1]);
        if str_eq(assessments[i - 1].parameter_id.as_str(), id) {
            return Some(&assessments[i - 1]);
        }
        assert(assessments@.take(i as int).drop_last() =~= assessments@.take(i - 1));
        i = i - 1;
    }
    None
}

/// The score of the answer option `id` of `question`.
fn find_option_score(question: &QuestionSpec, id: &str) -> (r: Option<String>)
    ensures
        opt_view(r) == option_score(question@.answer_options, id@),
{
    let ghost options = question@.answer_options;
    let mut i: usize = question.answer_options.len();
    assert(options.take(i as int) =~= options);
    while i > 0
        invariant
            options == question@.answer_options,
            i <= question.answer_options@.len(),
            option_score(options, id@) == option_score(options.take(i as int), id@),
        decreases i,
    {
        assert(options.take(i as int).last() == (
        question.answer_options@[i - 1].0@,
        question.answer_options@[i - 1].1@,
        ));
        if str_eq(question.answer_options[i - 1].0.as_str(), id) {
            return Some(question.answer_options[i - 1].1.clone());
        }
        assert(options.take(i as int).drop_last() =~= options.take(i - 1));
        i = i - 1;
    }
    None
}

/// The selection for `question` given the answers to its parameter.
fn select_question(question: &QuestionSpec, answers: &Vec<PayloadQuestionAnswer>) -> (r:
    QuestionSelection)
    ensures
        r@ == question_selection_spec(question@, answers@),
{
    let selected: Option<String> = match find_answer(answers, question.id.as_str()) {
        Some(a) => match &a.selected_answer_id {
            Some(s) => Some(s.clone()),
            None => None,
        },
        None => None,
    };
    let answer_score = match &selected {
        Some(id) => find_option_score(question, id.as_str()),
        None => None,
    };
    QuestionSelection {
        question_id: question.id.clone(),
        selected_answer_id: selected,
        answer_score,
        weight: question.weight.clone(),
    }
}

/// The selections for the questions of `parameter_spec`, applied with
/// `weight`, given the assessment of the parameter where there is one.
pub fn select_parameter_answers(
    parameter_spec: &ParameterSpec,
    payload_parameter: Option<&PayloadParameterAssessment>,
    weight: &String,
) -> (r: ParameterSelection)
    ensures
        r@ == parameter_selection_spec(
            parameter_spec@,
            match payload_parameter {
                Some(a) => Some(*a),
                None => None,
            },
            weight@,
        ),
{
    let empty: Vec<PayloadQuestionAnswer> = Vec::new();
    let answers: &Vec<PayloadQuestionAnswer> = match payload_parameter {
        Some(a) => &a.question_answers,
        None => &empty,
    };
    let ghost assessment = match payload_parameter {
        Some(a) => Some(*a),
        None => None::<PayloadParameterAssessment>,
    };
    assert(answers@ =~= given_answers(assessment));
    let n = parameter_spec.questions.len();
    let mut selections: Vec<QuestionSelection> = Vec::new();
    let mut i: usize = 0;
    while i < n
        invariant
            n == parameter_spec.questions@.len(),
            answers@ == given_answers(assessment),
            i <= n,
            selections@.len() == i,
            forall|j: int|
                0 <= j < i ==> #[trigger] selections@[j]@ == question_selection_spec(
                    parameter_spec.questions@[j]@,
                    answers@,
                ),
        decreases n - i,
    {
        let s = select_question(&parameter_spec.questions[i], answers);
        selections.push(s);
        i = i + 1;
    }
    let r = ParameterSelection {
        parameter_id: parameter_spec.id.clone(),
        application_weight: weight.clone(),
        question_selections: selections,
    };
    assert(r@.question_selections =~= parameter_spec@.questions.map_values(
        |q: QuestionSpecView| question_selection_spec(q, given_answers(assessment)),
    ));
    r
}

/// The selections for `assessment` under `repository`: those for the applications
/// of the indicator it names, or the failure that prevents them.
pub open spec fn selection_for_assessment(
    repository: IndicatorSpecRepository,
    assessment: AssessmentPayload,
) -> Result<Seq<ParameterSelectionView>, ComputationFailure> {
    match config_with_id(repository.configs_view(), assessment.indicator_specification_id@) {
        None => Err(ComputationFailure::UnknownIndicator(assessment.indicator_specification_id@)),
        Some(config) => match selections_spec(
            repository.parameters_view(),
            config.parameter_applications,
            assessment.parameter_assessments@,
        ) {
            Ok(s) => Ok(s),
            Err(reference) => Err(ComputationFailure::UnknownParameter(reference)),
        },
    }
}

/// A failure of `select_answers`, by view.
pub enum ComputationFailure {
    UnknownIndicator(Seq<char>),
    UnknownParameter(Seq<char>),
}

/// Whether `r` is `expected`, by view.
pub open spec fn selection_matches(
    r: Result<Vec<ParameterSelection>, ComputationError>,
    expected: Result<Seq<ParameterSelectionView>, ComputationFailure>,
) -> bool {
    match (r, expected) {
        (Ok(v), Ok(s)) => v@.map_values(|p: ParameterSelection| p@) == s,
        (
            Err(ComputationError::UnknownIndicator(id)),
            Err(ComputationFailure::UnknownIndicator(s)),
        ) => id@ == s,
        (
            Err(ComputationError::UnknownParameter(id)),
            Err(ComputationFailure::UnknownParameter(s)),
        ) => id@ == s,
        _ => false,
    }
}

/// For the indicator that `assessment` names, the selections of each parameter
/// it applies, in the order of its applications: unknown when the repository
/// holds no such indicator, or when one of its applications names a parameter
/// that the repository does not specify (the first such).
pub fn select_answers(repository: &IndicatorSpecRepository, assessment: &AssessmentPayload) -> (r:
    Result<Vec<ParameterSelection>, ComputationError>)
    ensures
        selection_matches(r, selection_for_assessment(*repository, *assessment)),
{
    let indicator = match repository.indicator_config(assessment.indicator_specification_id.as_str()) {
        Some(c) => c,
        None => {
            return Err(
                ComputationError::UnknownIndicator(assessment.indicator_specification_id.clone()),
            );
        },
    };
    let ghost applications = indicator@.parameter_applications;
    let ghost parameters = repository.parameters_view();
    let n = indicator.parameter_applications.len();
    let mut selections: Vec<ParameterSelection> = Vec::new();
    let mut i: usize = 0;
    assert(applications.take(0) =~= Seq::<ParameterApplicationView>::empty());
    assert(selections@.map_values(|p: ParameterSelection| p@) =~= Seq::<ParameterSelectionView>::empty());
    while i < n
        invariant
            n == indicator.parameter_applications@.len(),
            applications == indicator@.parameter_applications,
            config_with_id(repository.configs_view(), assessment.indicator_specification_id@)
                == Some(indicator@),
            parameters == repository.parameters_view(),
            i <= n,
            selections_spec(parameters, applications.take(i as int), assessment.parameter_assessments@)
                == Ok::<Seq<ParameterSelectionView>, Seq<char>>(
                selections@.map_values(|p: ParameterSelection| p@),
            ),
        decreases n - i,
    {
        let application = &indicator.parameter_applications[i];
        assert(applications.take(i + 1).drop_last() =~= applications.take(i as int));
        assert(applications.take(i + 1).last() == application@);
        let parameter_spec = match repository.parameter_spec(application.parameter_ref.as_str()) {
            Some(p) => p,
            None => {
                proof {
                    lemma_selections_prefix_err(
                        parameters,
                        applications,
                        assessment.parameter_assessments@,
                        i + 1,
                    );
                }
                return Err(ComputationError::UnknownParameter(application.parameter_ref.clone()));
            },
        };
        let payload_parameter = find_parameter_assessment(
            &assessment.parameter_assessments,
            application.parameter_ref.as_str(),
        );
        let ghost before = selections@;
        let selection = select_parameter_answers(parameter_spec, payload_parameter, &application.weight);
        selections.push(selection);
        assert(selections@.map_values(|p: ParameterSelection| p@) =~= before.map_values(
            |p: ParameterSelection| p@,
        ).push(selection@));
        i = i + 1;
    }
    assert(applications.take(n as int) =~= applications);
    Ok(selections)
}

/// Once the selections for a prefix of the applications fail, the selections
/// for all of them fail with the same reference.
proof fn lemma_selections_prefix_err(
    parameters: Seq<ParameterSpecView>,
    applications: Seq<ParameterApplicationView>,
    assessments: Seq<PayloadParameterAssessment>,
    k: int,
)
    requires
        0 <= k <= applications.len(),
        selections_spec(parameters, applications.take(k), assessments) is Err,
    ensures
        selections_spec(parameters, applications, assessments) == selections_spec(
            parameters,
            applications.take(k),
            assessments,
        ),
    decreases applications.len(),
{
    if k == applications.len() {
        assert(applications.take(k) =~= applications);
    } else {
        assert(applications.drop_last().take(k) =~= applications.take(k));
        lemma_selections_prefix_err(parameters, applications.drop_last(), assessments, k);
    }
}

/// The selections follow the indicator's applications one to one and in order,
/// each naming the applied parameter and carrying its weight; and they fail
/// exactly when some application names a parameter that is not specified.
pub proof fn lemma_selections_follow_applications(
    parameters: Seq<ParameterSpecView>,
    applications: Seq<ParameterApplicationView>,
    assessments: Seq<PayloadParameterAssessment>,
)
    ensures
        selections_spec(parameters, applications, assessments) is Ok <==> (forall|i: int|
            0 <= i < applications.len() ==> #[trigger] parameter_with_id(
                parameters,
                applications[i].parameter_ref,
            ) is Some),
        selections_spec(parameters, applications, assessments) matches Ok(s) ==> {
            &&& s.len() == applications.len()
            &&& forall|i: int|
                0 <= i < s.len() ==> {
                    &&& #[trigger] s[i].parameter_id == applications[i].parameter_ref
                    &&& s[i].application_weight == applications[i].weight
                    &&& s[i] == parameter_selection_spec(
                        parameter_with_id(parameters, applications[i].parameter_ref)->0,
                        answers_for_parameter(assessments, applications[i].parameter_ref),
                        applications[i].weight,
                    )
                }
        },
    decreases applications.len(),
{
    if applications.len() > 0 {
        let rest = applications.drop_last();
        let last = applications.last();
        lemma_selections_follow_applications(parameters, rest, assessments);
        lemma_parameter_with_id_matches(parameters, last.parameter_ref);
        if selections_spec(parameters, applications, assessments) is Ok {
            assert forall|i: int| 0 <= i < applications.len() implies #[trigger] parameter_with_id(
                parameters,
                applications[i].parameter_ref,
            ) is Some by {
                if i < rest.len() {
                    assert(rest[i] == applications[i]);
                }
            }
        }
        if forall|i: int|
            0 <= i < applications.len() ==> #[trigger] parameter_with_id(
                parameters,
                applications[i].parameter_ref,
            ) is Some {
            assert forall|i: int| 0 <= i < rest.len() implies #[trigger] parameter_with_id(
                parameters,
                rest[i].parameter_ref,
            ) is Some by {
                assert(rest[i] == applications[i]);
            }
            assert(parameter_with_id(parameters, applications[applications.len() - 1].parameter_ref) is Some);
        }
        if selections_spec(parameters, applications, assessments) is Ok {
            let s = selections_spec(parameters, applications, assessments)->Ok_0;
            let before = selections_spec(parameters, rest, assessments)->Ok_0;
            assert forall|i: int| 0 <= i < s.len() implies {
                &&& #[trigger] s[i].parameter_id == applications[i].parameter_ref
                &&& s[i].application_weight == applications[i].weight
                &&& s[i] == parameter_selection_spec(
                    parameter_with_id(parameters, applications[i].parameter_ref)->0,
                    answers_for_parameter(assessments, applications[i].parameter_ref),
                    applications[i].weight,
                )
            } by {
                if i < before.len() {
                    assert(s[i] == before[i]);
                    assert(rest[i] == applications[i]);
                }
            }
        }
    }
}

/// A question contributes a score only where an answer was selected for it
/// and the question offers that answer; the score is then that option's.
pub proof fn lemma_score_needs_offered_answer(
    q: QuestionSpecView,
    answers: Seq<PayloadQuestionAnswer>,
)
    ensures
        question_selection_spec(q, answers).answer_score is Some <==> (question_selection_spec(
            q,
            answers,
        ).selected_answer_id matches Some(id) && option_score(q.answer_options, id) is Some),
        question_selection_spec(q, answers).selected_answer_id is Some ==> answer_for_question(
            answers,
            q.id,
        ) is Some,
        question_selection_spec(q, answers).question_id == q.id,
        question_selection_spec(q, answers).weight == q.weight,
        question_selection_spec(q, answers).selected_answer_id == match answer_for_question(
            answers,
            q.id,
        ) {
            Some(a) => opt_view(a.selected_answer_id),
            None => None,
        },
        question_selection_spec(q, answers).selected_answer_id matches Some(id)
            ==> question_selection_spec(q, answers).answer_score == option_score(q.answer_options, id),
        question_selection_spec(q, answers).selected_answer_id is None
            ==> question_selection_spec(q, answers).answer_score is None,
{
}

/// An assessment appended to the list is the one found for its parameter; the
/// others are found as before.
pub proof fn lemma_appended_assessment(
    assessments: Seq<PayloadParameterAssessment>,
    e: PayloadParameterAssessment,
    id: Seq<char>,
)
    ensures
        answers_for_parameter(assessments.push(e), id) == if e.parameter_id@ == id {
            Some(e)
        } else {
            answers_for_parameter(assessments, id)
        },
{
    assert(assessments.push(e).drop_last() =~= assessments);
}

/// An answer appended to the list is the one found for its question; the others
/// are found as before.
pub proof fn lemma_appended_answer(answers: Seq<PayloadQuestionAnswer>, a: PayloadQuestionAnswer, id: Seq<char>)
    ensures
        answer_for_question(answers.push(a), id) == if a.question_id@ == id {
            Some(a)
        } else {
            answer_for_question(answers, id)
        },
{
    assert(answers.push(a).drop_last() =~= answers);
}

/// The selections depend on the assessments only through the assessment found
/// for each parameter.
pub proof fn lemma_selections_depend_on_lookup(
    parameters: Seq<ParameterSpecView>,
    applications: Seq<ParameterApplicationView>,
    a1: Seq<PayloadParameterAssessment>,
    a2: Seq<PayloadParameterAssessment>,
)
    requires
        forall|id: Seq<char>| #[trigger] answers_for_parameter(a1, id) == answers_for_parameter(a2, id),
    ensures
        selections_spec(parameters, applications, a1) == selections_spec(parameters, applications, a2),
    decreases applications.len(),
{
    if applications.len() > 0 {
        lemma_selections_depend_on_lookup(parameters, applications.drop_last(), a1, a2);
        assert(answers_for_parameter(a1, applications.last().parameter_ref) == answers_for_parameter(
            a2,
            applications.last().parameter_ref,
        ));
    }
}

/// An assessment of a parameter that the indicator does not apply leaves the
/// selections unchanged.
pub proof fn lemma_unreferenced_assessment_ignored(
    parameters: Seq<ParameterSpecView>,
    applications: Seq<ParameterApplicationView>,
    assessments: Seq<PayloadParameterAssessment>,
    e: PayloadParameterAssessment,
)
    requires
        forall|i: int| 0 <= i < applications.len() ==> #[trigger] applications[i].parameter_ref != e.parameter_id@,
    ensures
        selections_spec(parameters, applications, assessments.push(e)) == selections_spec(
            parameters,
            applications,
            assessments,
        ),
    decreases applications.len(),
{
    if applications.len() > 0 {
        let rest = applications.drop_last();
        assert forall|i: int| 0 <= i < rest.len() implies #[trigger] rest[i].parameter_ref != e.parameter_id@ by {
            assert(rest[i] == applications[i]);
        }
        lemma_unreferenced_assessment_ignored(parameters, rest, assessments, e);
        assert(applications[applications.len() - 1].parameter_ref != e.parameter_id@);
        lemma_appended_assessment(assessments, e, applications.last().parameter_ref);
    }
}

/// A later assessment of a parameter replaces every earlier one: two lists that
/// agree on all other parameters give the same selections once the same
/// assessment is appended to both.
pub proof fn lemma_later_assessment_replaces_earlier(
    parameters: Seq<ParameterSpecView>,
    applications: Seq<ParameterApplicationView>,
    a1: Seq<PayloadParameterAssessment>,
    a2: Seq<PayloadParameterAssessment>,
    e: PayloadParameterAssessment,
)
    requires
        forall|id: Seq<char>|
            id != e.parameter_id@ ==> #[trigger] answers_for_parameter(a1, id) == answers_for_parameter(
                a2,
                id,
            ),
    ensures
        selections_spec(parameters, applications, a1.push(e)) == selections_spec(
            parameters,
            applications,
            a2.push(e),
        ),
{
    assert forall|id: Seq<char>| #[trigger] answers_for_parameter(a1.push(e), id) == answers_for_parameter(
        a2.push(e),
        id,
    ) by {
        lemma_appended_assessment(a1, e, id);
        lemma_appended_assessment(a2, e, id);
    }
    lemma_selections_depend_on_lookup(parameters, applications, a1.push(e), a2.push(e));
}

/// A later answer to a question replaces every earlier one: two lists that
/// agree on all other questions select the same once the same answer is
/// appended to both.
pub proof fn lemma_later_answer_replaces_earlier(
    q: QuestionSpecView,
    a1: Seq<PayloadQuestionAnswer>,
    a2: Seq<PayloadQuestionAnswer>,
    a: PayloadQuestionAnswer,
)
    requires
        forall|id: Seq<char>|
            id != a.question_id@ ==> #[trigger] answer_for_question(a1, id) == answer_for_question(a2, id),
    ensures
        question_selection_spec(q, a1.push(a)) == question_selection_spec(q, a2.push(a)),
{
    lemma_appended_answer(a1, a, q.id);
    lemma_appended_answer(a2, a, q.id);
    if a.question_id@ != q.id {
        assert(answer_for_question(a1, q.id) == answer_for_question(a2, q.id));
    }
}

/// An option appended to a question's options decides the score of its own id,
/// and leaves the score of every other id as it was.
pub proof fn lemma_appended_option(
    options: Seq<(Seq<char>, Seq<char>)>,
    x: Seq<char>,
    s: Seq<char>,
    y: Seq<char>,
)
    ensures
        option_score(options.push((x, s)), x) == Some(s),
        y != x ==> option_score(options.push((x, s)), y) == option_score(options, y),
{
    assert(options.push((x, s)).drop_last() =~= options);
}

/// An id has a score exactly when one of the options carries it, and the score
/// is that of the last option carrying it.
pub proof fn lemma_option_score_found(options: Seq<(Seq<char>, Seq<char>)>, id: Seq<char>)
    ensures
        option_score(options, id) is None <==> (forall|i: int|
            0 <= i < options.len() ==> #[trigger] options[i].0 != id),
        option_score(options, id) matches Some(s) ==> exists|i: int|
            0 <= i < options.len() && #[trigger] options[i] == (id, s) && (forall|j: int|
                i < j < options.len() ==> #[trigger] options[j].0 != id),
    decreases options.len(),
{
    if options.len() > 0 {
        let rest = options.drop_last();
        lemma_option_score_found(rest, id);
        let n = options.len() - 1;
        if options.last().0 == id {
            assert(options[n] == (id, options.last().1));
        } else {
            assert(options[n].0 != id);
            if option_score(rest, id) is None {
                assert forall|i: int| 0 <= i < options.len() implies #[trigger] options[i].0 != id by {
                    if i < n {
                        assert(options[i] == rest[i]);
                    }
                }
            } else {
                let s = option_score(rest, id)->0;
                let i = choose|i: int|
                    0 <= i < rest.len() && #[trigger] rest[i] == (id, s) && (forall|j: int|
                        i < j < rest.len() ==> #[trigger] rest[j].0 != id);
                assert(options[i] == rest[i]);
                assert forall|j: int| i < j < options.len() implies #[trigger] options[j].0 != id by {
                    if j < n {
                        assert(options[j] == rest[j]);
                    }
                }
                assert(rest[i] == (id, s));
            }
            if forall|i: int| 0 <= i < options.len() ==> #[trigger] options[i].0 != id {
                assert forall|i: int| 0 <= i < rest.len() implies #[trigger] rest[i].0 != id by {
                    assert(options[i] == rest[i]);
                }
            }
        }
    }
}

} // verus!
