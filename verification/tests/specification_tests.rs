use re_indicators_calculation_service::computation::{
    select_answers, select_parameter_answers, AssessmentPayload, ComputationError,
    PayloadParameterAssessment, PayloadQuestionAnswer,
};
use re_indicators_calculation_service::spec_loader::{
    build_indicator_config, build_parameter_spec, build_question_spec, expand_union_members,
    expansion_is_bounded, is_yaml_file_name, loading_is_bounded, yaml_file_positions, parse_ifabsent_float, parse_ifabsent_string,
    AttributeDefinition,
    ClassDefinition, IndicatorSpecRepository, SchemaDocument,
};

fn attr(range: Option<&str>, ifabsent: Option<&str>) -> AttributeDefinition {
    AttributeDefinition {
        range: range.map(|s| s.to_string()),
        ifabsent: ifabsent.map(|s| s.to_string()),
    }
}

fn class(
    is_a: Option<&str>,
    union_of: &[&str],
    attributes: Vec<(&str, AttributeDefinition)>,
) -> ClassDefinition {
    ClassDefinition {
        is_a: is_a.map(|s| s.to_string()),
        union_of: union_of.iter().map(|s| s.to_string()).collect(),
        attributes: attributes
            .into_iter()
            .map(|(k, v)| (k.to_string(), v))
            .collect(),
    }
}

fn sample_classes() -> Vec<(String, ClassDefinition)> {
    vec![
        (
            "PVConfig".to_string(),
            class(
                Some("IndicatorProductConfiguration"),
                &[],
                vec![
                    ("id", attr(None, Some("string(REcycle_PV)"))),
                    ("parameter_applications", attr(Some("PVApplications"), None)),
                ],
            ),
        ),
        ("PVApplications".to_string(), class(None, &["AppP1", "AppP2", "AppBroken"], vec![])),
        (
            "AppP1".to_string(),
            class(
                None,
                &[],
                vec![
                    ("parameter_ref", attr(None, Some("string(P1)"))),
                    ("weight", attr(None, Some("float(0.6)"))),
                ],
            ),
        ),
        (
            "AppP2".to_string(),
            class(
                None,
                &[],
                vec![
                    ("parameter_ref", attr(None, Some("string(P2)"))),
                    ("weight", attr(None, Some("float(4e-1)"))),
                ],
            ),
        ),
        (
            "AppBroken".to_string(),
            class(
                None,
                &[],
                vec![
                    ("parameter_ref", attr(None, Some("string(P3)"))),
                    ("weight", attr(None, Some("float(heavy)"))),
                ],
            ),
        ),
        (
            "P1Spec".to_string(),
            class(
                Some("ParameterSpecification"),
                &[],
                vec![
                    ("id", attr(None, Some("string(P1)"))),
                    ("questions", attr(Some("P1Questions"), None)),
                ],
            ),
        ),
        ("P1Questions".to_string(), class(None, &["Q1", "Q2"], vec![])),
        (
            "Q1".to_string(),
            class(
                None,
                &[],
                vec![
                    ("id", attr(None, Some("string(Q1.1)"))),
                    ("weight", attr(None, Some("float(0.5)"))),
                    ("answer_options", attr(Some("Q1Answers"), None)),
                ],
            ),
        ),
        ("Q1Answers".to_string(), class(None, &["Q1Low", "Q1HighGroup"], vec![])),
        ("Q1HighGroup".to_string(), class(None, &["Q1High"], vec![])),
        (
            "Q1Low".to_string(),
            class(
                None,
                &[],
                vec![("id", attr(None, Some("string(low)"))), ("score", attr(None, Some("float(1)")))],
            ),
        ),
        (
            "Q1High".to_string(),
            class(
                None,
                &[],
                vec![("id", attr(None, Some("string(high)"))), ("score", attr(None, Some("float(3.0)")))],
            ),
        ),
        (
            "Q2".to_string(),
            class(
                None,
                &[],
                vec![
                    ("id", attr(None, Some("string(Q1.2)"))),
                    ("weight", attr(None, Some("float(.5)"))),
                    ("answer_options", attr(Some("Q2Only"), None)),
                ],
            ),
        ),
        (
            "Q2Only".to_string(),
            class(
                None,
                &[],
                vec![("id", attr(None, Some("string(yes)"))), ("score", attr(None, Some("float(2)")))],
            ),
        ),
        (
            "P2Spec".to_string(),
            class(
                Some("ParameterSpecification"),
                &[],
                vec![
                    ("id", attr(None, Some("string(P2)"))),
                    ("questions", attr(Some("NoSuchClass"), None)),
                ],
            ),
        ),
    ]
}

#[test]
fn ifabsent_parsing() {
    assert_eq!(parse_ifabsent_string("string(abc)"), Some("abc".to_string()));
    assert_eq!(parse_ifabsent_string("string()"), Some("".to_string()));
    assert_eq!(parse_ifabsent_string("float(1)"), None);
    assert_eq!(parse_ifabsent_string("string(abc"), None);
    assert_eq!(parse_ifabsent_float("float(0.25)"), Some("0.25".to_string()));
    assert_eq!(parse_ifabsent_float("float(1e3)"), Some("1e3".to_string()));
    assert_eq!(parse_ifabsent_float("float(x)"), None);
    assert_eq!(parse_ifabsent_float("float( 1)"), None);
    assert_eq!(parse_ifabsent_float("string(1)"), None);
}

#[test]
fn union_expansion_is_recursive_and_ordered() {
    let classes = sample_classes();
    assert!(loading_is_bounded(&classes));
    assert!(expansion_is_bounded("PVApplications", &classes));
    assert_eq!(expand_union_members("Q1Answers", &classes), vec!["Q1Low", "Q1High"]);
    assert_eq!(expand_union_members("Q1Low", &classes), vec!["Q1Low"]);
    assert_eq!(expand_union_members("Unknown", &classes), vec!["Unknown"]);
    assert_eq!(
        expand_union_members("PVApplications", &classes),
        vec!["AppP1", "AppP2", "AppBroken"]
    );
}

#[test]
fn cyclic_unions_are_detected() {
    let classes = vec![
        ("A".to_string(), class(None, &["B"], vec![])),
        ("B".to_string(), class(None, &["A"], vec![])),
    ];
    assert!(!expansion_is_bounded("A", &classes));
    assert!(expansion_is_bounded("C", &classes));
    assert!(loading_is_bounded(&classes));
    let mut with_parameter = classes;
    with_parameter.push((
        "P".to_string(),
        class(
            Some("ParameterSpecification"),
            &[],
            vec![("id", attr(None, Some("string(P)"))), ("questions", attr(Some("A"), None))],
        ),
    ));
    assert!(!loading_is_bounded(&with_parameter));
    let classes = vec![
        ("A".to_string(), class(None, &["B", "B"], vec![])),
        ("B".to_string(), class(None, &["C"], vec![])),
    ];
    assert!(expansion_is_bounded("A", &classes));
    assert_eq!(expand_union_members("A", &classes), vec!["C", "C"]);
}

#[test]
fn classes_build_specifications() {
    let classes = sample_classes();
    let config = build_indicator_config("PVConfig", &classes[0].1, &classes).unwrap();
    assert_eq!(config.id, "REcycle_PV");
    let refs: Vec<(&str, &str)> = config
        .parameter_applications
        .iter()
        .map(|a| (a.parameter_ref.as_str(), a.weight.as_str()))
        .collect();
    assert_eq!(refs, vec![("P1", "0.6"), ("P2", "4e-1")]);

    let parameter = build_parameter_spec("P1Spec", &classes[5].1, &classes).unwrap();
    assert_eq!(parameter.id, "P1");
    assert_eq!(parameter.questions.len(), 2);
    assert_eq!(parameter.questions[0].id, "Q1.1");
    assert_eq!(parameter.questions[0].weight, "0.5");
    assert_eq!(
        parameter.questions[0].answer_options,
        vec![
            ("low".to_string(), "1".to_string()),
            ("high".to_string(), "3.0".to_string())
        ]
    );
    assert_eq!(parameter.questions[1].weight, ".5");

    let empty_parameter = build_parameter_spec("P2Spec", &classes[14].1, &classes).unwrap();
    assert!(empty_parameter.questions.is_empty());

    assert!(build_question_spec("Q1Low", &classes).is_none());
    assert!(build_indicator_config("PVApplications", &classes[1].1, &classes).is_none());
}

fn repository() -> IndicatorSpecRepository {
    let later = vec![(
        "P1Override".to_string(),
        class(
            Some("ParameterSpecification"),
            &[],
            vec![
                ("id", attr(None, Some("string(P9)"))),
                ("questions", attr(Some("Nothing"), None)),
            ],
        ),
    )];
    IndicatorSpecRepository::from_documents(&vec![
        SchemaDocument { classes: sample_classes() },
        SchemaDocument { classes: later },
    ])
}

#[test]
fn repository_collects_documents() {
    let repository = repository();
    assert_eq!(repository.indicator_configs.len(), 1);
    let ids: Vec<&str> = repository.parameter_specs.iter().map(|p| p.id.as_str()).collect();
    assert_eq!(ids, vec!["P1", "P2", "P9"]);
    assert!(repository.indicator_config("REcycle_PV").is_some());
    assert!(repository.indicator_config("REcycle_Battery").is_none());
    assert_eq!(repository.parameter_spec("P9").unwrap().questions.len(), 0);
}

#[test]
fn later_definition_replaces_earlier() {
    let first = SchemaDocument {
        classes: vec![(
            "X".to_string(),
            class(
                Some("ParameterSpecification"),
                &[],
                vec![("id", attr(None, Some("string(P)"))), ("questions", attr(Some("Q"), None))],
            ),
        )],
    };
    let second = SchemaDocument {
        classes: vec![
            (
                "Y".to_string(),
                class(
                    Some("ParameterSpecification"),
                    &[],
                    vec![("id", attr(None, Some("string(P)"))), ("questions", attr(Some("Q"), None))],
                ),
            ),
            (
                "Q".to_string(),
                class(
                    None,
                    &[],
                    vec![
                        ("id", attr(None, Some("string(q)"))),
                        ("weight", attr(None, Some("float(1)"))),
                        ("answer_options", attr(Some("none"), None)),
                    ],
                ),
            ),
        ],
    };
    let repository = IndicatorSpecRepository::from_documents(&vec![first, second]);
    assert_eq!(repository.parameter_specs.len(), 2);
    assert_eq!(repository.parameter_spec("P").unwrap().questions.len(), 1);
}

fn answer(question: &str, selected: Option<&str>) -> PayloadQuestionAnswer {
    PayloadQuestionAnswer {
        question_id: question.to_string(),
        selected_answer_id: selected.map(|s| s.to_string()),
    }
}

#[test]
fn selections_follow_answers() {
    let repository = repository();
    let assessment = AssessmentPayload {
        indicator_specification_id: "REcycle_PV".to_string(),
        parameter_assessments: vec![
            PayloadParameterAssessment {
                parameter_id: "P1".to_string(),
                question_answers: vec![answer("Q1.1", Some("low"))],
            },
            PayloadParameterAssessment {
                parameter_id: "P1".to_string(),
                question_answers: vec![
                    answer("Q1.1", Some("low")),
                    answer("Q1.1", Some("high")),
                    answer("Q1.2", Some("maybe")),
                ],
            },
        ],
    };
    let selections = match select_answers(&repository, &assessment) {
        Ok(s) => s,
        Err(_) => panic!("expected selections"),
    };
    assert_eq!(selections.len(), 2);
    assert_eq!(selections[0].parameter_id, "P1");
    assert_eq!(selections[0].application_weight, "0.6");
    let q = &selections[0].question_selections;
    assert_eq!(q.len(), 2);
    assert_eq!(q[0].question_id, "Q1.1");
    assert_eq!(q[0].selected_answer_id.as_deref(), Some("high"));
    assert_eq!(q[0].answer_score.as_deref(), Some("3.0"));
    assert_eq!(q[0].weight, "0.5");
    assert_eq!(q[1].selected_answer_id.as_deref(), Some("maybe"));
    assert_eq!(q[1].answer_score, None);
    assert_eq!(selections[1].parameter_id, "P2");
    assert_eq!(selections[1].application_weight, "4e-1");
    assert!(selections[1].question_selections.is_empty());
}

#[test]
fn unanswered_parameter_selects_nothing() {
    let repository = repository();
    let parameter = repository.parameter_spec("P1").unwrap();
    let weight = "1".to_string();
    let selection = select_parameter_answers(parameter, None, &weight);
    assert_eq!(selection.question_selections.len(), 2);
    assert!(selection
        .question_selections
        .iter()
        .all(|q| q.selected_answer_id.is_none() && q.answer_score.is_none()));
    let partial = PayloadParameterAssessment {
        parameter_id: "P1".to_string(),
        question_answers: vec![answer("Q1.2", None)],
    };
    let selection = select_parameter_answers(parameter, Some(&partial), &weight);
    assert!(selection.question_selections[1].selected_answer_id.is_none());
}

#[test]
fn unknown_indicator_and_parameter() {
    let repository = repository();
    let assessment = AssessmentPayload {
        indicator_specification_id: "REcycle_Battery".to_string(),
        parameter_assessments: vec![],
    };
    match select_answers(&repository, &assessment) {
        Err(ComputationError::UnknownIndicator(id)) => assert_eq!(id, "REcycle_Battery"),
        _ => panic!("expected an unknown indicator"),
    }
    let mut classes = sample_classes();
    classes.retain(|(name, _)| name != "P1Spec");
    let repository = IndicatorSpecRepository::from_documents(&vec![SchemaDocument { classes }]);
    let assessment = AssessmentPayload {
        indicator_specification_id: "REcycle_PV".to_string(),
        parameter_assessments: vec![],
    };
    match select_answers(&repository, &assessment) {
        Err(ComputationError::UnknownParameter(id)) => assert_eq!(id, "P1"),
        _ => panic!("expected an unknown parameter"),
    }
}

#[test]
fn yaml_file_names_follow_path_extension() {
    let names = [
        "a.yaml", "a.yml", "yaml", ".yaml", "..yaml", "a.b.yaml", "a.yaml.bak", "a.", "a.YAML",
        ".hidden.yaml", "", "é.yaml",
    ];
    for name in names {
        let expected = std::path::Path::new(name)
            .extension()
            .and_then(|e| e.to_str())
            == Some("yaml");
        assert_eq!(is_yaml_file_name(name), expected, "{name:?}");
    }
}

#[test]
fn only_yaml_entries_are_read() {
    let names: Vec<String> = ["a.yaml", "notes.md", "b.YAML", "c.yml", "d.yaml", "README"]
        .iter()
        .map(|s| s.to_string())
        .collect();
    assert_eq!(yaml_file_positions(&names), vec![0, 4]);
    let fewer: Vec<String> = ["a.yaml", "d.yaml"].iter().map(|s| s.to_string()).collect();
    let chosen: Vec<&String> = yaml_file_positions(&names).into_iter().map(|i| &names[i]).collect();
    let chosen_fewer: Vec<&String> =
        yaml_file_positions(&fewer).into_iter().map(|i| &fewer[i]).collect();
    assert_eq!(chosen, chosen_fewer);
}

#[test]
fn unreferenced_assessment_changes_nothing() {
    let repository = repository();
    let base = vec![PayloadParameterAssessment {
        parameter_id: "P1".to_string(),
        question_answers: vec![answer("Q1.1", Some("low"))],
    }];
    let mut extended = vec![PayloadParameterAssessment {
        parameter_id: "P1".to_string(),
        question_answers: vec![answer("Q1.1", Some("low"))],
    }];
    extended.push(PayloadParameterAssessment {
        parameter_id: "P7".to_string(),
        question_answers: vec![answer("Q1.1", Some("high"))],
    });
    let a = select_answers(
        &repository,
        &AssessmentPayload {
            indicator_specification_id: "REcycle_PV".to_string(),
            parameter_assessments: base,
        },
    );
    let b = select_answers(
        &repository,
        &AssessmentPayload {
            indicator_specification_id: "REcycle_PV".to_string(),
            parameter_assessments: extended,
        },
    );
    let scores = |r: &Result<Vec<re_indicators_calculation_service::computation::ParameterSelection>, ComputationError>| -> Vec<Option<String>> {
        match r {
            Ok(s) => s
                .iter()
                .flat_map(|p| p.question_selections.iter().map(|q| q.answer_score.clone()))
                .collect(),
            Err(_) => panic!("expected selections"),
        }
    };
    assert_eq!(scores(&a), scores(&b));
    assert_eq!(scores(&a), vec![Some("1".to_string()), None]);
}
