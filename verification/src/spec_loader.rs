//! The indicator specification, read from the schema classes that describe it.
//!
//! A schema document maps class names to class definitions. An indicator
//! configuration, a parameter specification, a question and an answer option
//! are each a class whose attributes carry their values as `ifabsent` defaults
//! (`string(...)`, `float(...)`); a class whose `union_of` is not empty stands
//! for the classes it unites. Scores and weights stay in their textual form,
//! checked to be numbers that `f64` parsing accepts.
use vstd::prelude::*;

use crate::text::{
    between_spec, float_literal, is_ascii_digit, is_float_literal, lemma_digit_runs_are_float_literals,
    str_eq, strip_between,
};

verus! {

/// An attribute of a schema class.
pub struct AttributeDefinition {
    pub range: Option<String>,
    pub ifabsent: Option<String>,
}

/// A schema class: what it specialises, the classes it unites, and its attributes.
pub struct ClassDefinition {
    pub is_a: Option<String>,
    pub union_of: Vec<String>,
    pub attributes: Vec<(String, AttributeDefinition)>,
}

/// A schema document: its classes, by name.
pub struct SchemaDocument {
    pub classes: Vec<(String, ClassDefinition)>,
}

/// The class named `name`: the first entry that carries that name.
pub open spec fn find_class_spec(classes: Seq<(String, ClassDefinition)>, name: Seq<char>) -> Option<
    ClassDefinition,
>
    decreases classes.len(),
{
    if classes.len() == 0 {
        None
    } else if classes[0].0@ == name {
        Some(classes[0].1)
    } else {
        find_class_spec(classes.drop_first(), name)
    }
}

/// The attribute named `key`: the first entry that carries that name.
pub open spec fn find_attribute_spec(
    attributes: Seq<(String, AttributeDefinition)>,
    key: Seq<char>,
) -> Option<AttributeDefinition>
    decreases attributes.len(),
{
    if attributes.len() == 0 {
        None
    } else if attributes[0].0@ == key {
        Some(attributes[0].1)
    } else {
        find_attribute_spec(attributes.drop_first(), key)
    }
}

/// The `ifabsent` text of the attribute `key` of `class`, where it has one.
pub open spec fn ifabsent_of(class: ClassDefinition, key: Seq<char>) -> Option<Seq<char>> {
    match find_attribute_spec(class.attributes@, key) {
        Some(a) => match a.ifabsent {
            Some(s) => Some(s@),
            None => None,
        },
        None => None,
    }
}

/// The `range` of the attribute `key` of `class`, where it has one.
pub open spec fn range_of(class: ClassDefinition, key: Seq<char>) -> Option<Seq<char>> {
    match find_attribute_spec(class.attributes@, key) {
        Some(a) => match a.range {
            Some(s) => Some(s@),
            None => None,
        },
        None => None,
    }
}

/// The names of the classes that `class` unites.
pub open spec fn union_names(class: ClassDefinition) -> Seq<Seq<char>> {
    class.union_of@.map_values(|s: String| s@)
}

/// The classes that `name` stands for, unions expanded, in order; `None` where
/// the expansion needs more than `fuel` nested unions.
pub open spec fn expand_spec(classes: Seq<(String, ClassDefinition)>, name: Seq<char>, fuel: nat) -> Option<
    Seq<Seq<char>>,
>
    decreases fuel, 0nat,
{
    match find_class_spec(classes, name) {
        None => Some(seq![name]),
        Some(class) => if class.union_of@.len() == 0 {
            Some(seq![name])
        } else if fuel == 0 {
            None
        } else {
            expand_members_spec(classes, union_names(class), (fuel - 1) as nat)
        },
    }
}

/// The expansions of `members`, one after another.
pub open spec fn expand_members_spec(
    classes: Seq<(String, ClassDefinition)>,
    members: Seq<Seq<char>>,
    fuel: nat,
) -> Option<Seq<Seq<char>>>
    decreases fuel, members.len() + 1,
{
    if members.len() == 0 {
        Some(Seq::empty())
    } else {
        match (
            expand_members_spec(classes, members.drop_last(), fuel),
            expand_spec(classes, members.last(), fuel),
        ) {
            (Some(a), Some(b)) => Some(a + b),
            _ => None,
        }
    }
}

/// Whether the expansion of `name` nests no more unions than `classes` holds
/// classes, as every expansion that meets no cycle of unions does; one that
/// meets a cycle never ends.
pub open spec fn expansion_bounded(classes: Seq<(String, ClassDefinition)>, name: Seq<char>) -> bool {
    expand_spec(classes, name, classes.len()) is Some
}

/// The classes that `name` stands for in `classes`.
pub open spec fn union_expansion(classes: Seq<(String, ClassDefinition)>, name: Seq<char>) -> Seq<
    Seq<char>,
> {
    expand_spec(classes, name, classes.len()).unwrap()
}

/// The names of `v`.
pub open spec fn names_of(v: Seq<String>) -> Seq<Seq<char>> {
    v.map_values(|s: String| s@)
}

/// The class named `name`.
pub fn find_class<'a>(classes: &'a Vec<(String, ClassDefinition)>, name: &str) -> (r: Option<
    &'a ClassDefinition,
>)
    ensures
        match r {
            Some(c) => find_class_spec(classes@, name@) == Some(*c),
            None => find_class_spec(classes@, name@) is None,
        },
{
    let n = classes.len();
    let mut i: usize = 0;
    assert(classes@.skip(0) =~= classes@);
    while i < n
        invariant
            n == classes@.len(),
            i <= n,
            find_class_spec(classes@, name@) == find_class_spec(classes@.skip(i as int), name@),
        decreases n - i,
    {
        if str_eq(classes[i].0.as_str(), name) {
            return Some(&classes[i].1);
        }
        assert(classes@.skip(i as int).drop_first() =~= classes@.skip(i + 1));
        i = i + 1;
    }
    None
}

/// The attribute named `key`.
pub fn find_attribute<'a>(attributes: &'a Vec<(String, AttributeDefinition)>, key: &str) -> (r:
    Option<&'a AttributeDefinition>)
    ensures
        match r {
            Some(a) => find_attribute_spec(attributes@, key@) == Some(*a),
            None => find_attribute_spec(attributes@, key@) is None,
        },
{
    let n = attributes.len();
    let mut i: usize = 0;
    assert(attributes@.skip(0) =~= attributes@);
    while i < n
        invariant
            n == attributes@.len(),
            i <= n,
            find_attribute_spec(attributes@, key@) == find_attribute_spec(
                attributes@.skip(i as int),
                key@,
            ),
        decreases n - i,
    {
        if str_eq(attributes[i].0.as_str(), key) {
            return Some(&attributes[i].1);
        }
        assert(attributes@.skip(i as int).drop_first() =~= attributes@.skip(i + 1));
        i = i + 1;
    }
    None
}

/// The `ifabsent` text of the attribute `key` of `class`.
fn attribute_ifabsent<'a>(class: &'a ClassDefinition, key: &str) -> (r: Option<&'a String>)
    ensures
        match r {
            Some(s) => ifabsent_of(*class, key@) == Some(s@),
            None => ifabsent_of(*class, key@) is None,
        },
{
    match find_attribute(&class.attributes, key) {
        Some(a) => match &a.ifabsent {
            Some(s) => Some(s),
            None => None,
        },
        None => None,
    }
}

/// The `range` of the attribute `key` of `class`.
fn attribute_range<'a>(class: &'a ClassDefinition, key: &str) -> (r: Option<&'a String>)
    ensures
        match r {
            Some(s) => range_of(*class, key@) == Some(s@),
            None => range_of(*class, key@) is None,
        },
{
    match find_attribute(&class.attributes, key) {
        Some(a) => match &a.range {
            Some(s) => Some(s),
            None => None,
        },
        None => None,
    }
}

proof fn lemma_expand_members_prefix_none(
    classes: Seq<(String, ClassDefinition)>,
    members: Seq<Seq<char>>,
    k: int,
    fuel: nat,
)
    requires
        0 <= k <= members.len(),
        expand_members_spec(classes, members.take(k), fuel) is None,
    ensures
        expand_members_spec(classes, members, fuel) is None,
    decreases members.len(),
{
    if k == members.len() {
        assert(members.take(k) =~= members);
    } else {
        assert(members.drop_last().take(k) =~= members.take(k));
        lemma_expand_members_prefix_none(classes, members.drop_last(), k, fuel);
    }
}

/// The expansion of `class_name` with at most `fuel` nested unions.
fn expand_with_fuel(class_name: &str, classes: &Vec<(String, ClassDefinition)>, fuel: usize) -> (r:
    Option<Vec<String>>)
    ensures
        match r {
            Some(v) => expand_spec(classes@, class_name@, fuel as nat) == Some(names_of(v@)),
            None => expand_spec(classes@, class_name@, fuel as nat) is None,
        },
    decreases fuel,
{
    let class_def = match find_class(classes, class_name) {
        None => {
            let v = vec![class_name.to_owned()];
            assert(names_of(v@) =~= seq![class_name@]);
            return Some(v);
        },
        Some(c) => c,
    };
    let m = class_def.union_of.len();
    if m == 0 {
        let v = vec![class_name.to_owned()];
        assert(names_of(v@) =~= seq![class_name@]);
        return Some(v);
    }
    if fuel == 0 {
        return None;
    }
    let ghost members = union_names(*class_def);
    let mut out: Vec<String> = Vec::new();
    let mut i: usize = 0;
    assert(members.take(0) =~= Seq::<Seq<char>>::empty());
    assert(names_of(out@) =~= Seq::<Seq<char>>::empty());
    while i < m
        invariant
            m == class_def.union_of@.len(),
            members == union_names(*class_def),
            find_class_spec(classes@, class_name@) == Some(*class_def),
            members.len() == m,
            i <= m,
            fuel > 0,
            expand_members_spec(classes@, members.take(i as int), (fuel - 1) as nat) == Some(
                names_of(out@),
            ),
        decreases m - i,
    {
        let part = expand_with_fuel(class_def.union_of[i].as_str(), classes, fuel - 1);
        assert(members.take(i + 1).drop_last() =~= members.take(i as int));
        assert(members.take(i + 1).last() == class_def.union_of@[i as int]@);
        match part {
            None => {
                proof {
                    lemma_expand_members_prefix_none(classes@, members, i + 1, (fuel - 1) as nat);
                    assert(expand_spec(classes@, class_name@, fuel as nat) == expand_members_spec(
                        classes@,
                        members,
                        (fuel - 1) as nat,
                    ));
                }
                return None;
            },
            Some(p) => {
                let ghost before = out@;
                let ghost added = p@;
                let mut p = p;
                out.append(&mut p);
                assert(names_of(out@) =~= names_of(before) + names_of(added));
            },
        }
        i = i + 1;
    }
    assert(members.take(m as int) =~= members);
    assert(expand_spec(classes@, class_name@, fuel as nat) == expand_members_spec(
        classes@,
        members,
        (fuel - 1) as nat,
    ));
    Some(out)
}

/// The classes that `class_name` stands for, unions expanded, in the order of
/// each union's members: `class_name` itself where it names no class or a
/// class that unites nothing.
pub fn expand_union_members(class_name: &str, classes: &Vec<(String, ClassDefinition)>) -> (r: Vec<
    String,
>)
    requires
        expand_spec(classes@, class_name@, classes@.len()) is Some,
    ensures
        names_of(r@) == union_expansion(classes@, class_name@),
{
    match expand_with_fuel(class_name, classes, classes.len()) {
        Some(v) => v,
        None => Vec::new(),
    }
}

/// Whether the expansion of `class_name` ends.
pub fn expansion_is_bounded(class_name: &str, classes: &Vec<(String, ClassDefinition)>) -> (b: bool)
    ensures
        b == expansion_bounded(classes@, class_name@),
{
    expand_with_fuel(class_name, classes, classes.len()).is_some()
}

/// The text of a `string(...)` default: what stands between the parentheses.
pub open spec fn ifabsent_string_spec(value: Seq<char>) -> Option<Seq<char>> {
    between_spec(value, "string("@, ')')
}

/// The text of a `float(...)` default, where it is a number that `f64` parsing accepts.
pub open spec fn ifabsent_float_spec(value: Seq<char>) -> Option<Seq<char>> {
    match between_spec(value, "float("@, ')') {
        Some(inner) => if is_float_literal(inner) {
            Some(inner)
        } else {
            None
        },
        None => None,
    }
}

/// The text between the parentheses of a `string(...)` default.
pub fn parse_ifabsent_string(value: &str) -> (r: Option<String>)
    ensures
        match r {
            Some(s) => ifabsent_string_spec(value@) == Some(s@),
            None => ifabsent_string_spec(value@) is None,
        },
{
    strip_between(value, "string(", ')')
}

/// The number between the parentheses of a `float(...)` default, in its textual
/// form, where `f64` parsing accepts it.
pub fn parse_ifabsent_float(value: &str) -> (r: Option<String>)
    ensures
        match r {
            Some(s) => ifabsent_float_spec(value@) == Some(s@),
            None => ifabsent_float_spec(value@) is None,
        },
{
    match strip_between(value, "float(", ')') {
        Some(inner) => if float_literal(inner.as_str()) {
            Some(inner)
        } else {
            None
        },
        None => None,
    }
}

/// The values of `f` over `s`, in order, where `f` gives one.
pub open spec fn filter_map<A, B>(s: Seq<A>, f: spec_fn(A) -> Option<B>) -> Seq<B>
    decreases s.len(),
{
    if s.len() == 0 {
        Seq::empty()
    } else {
        let rest = filter_map(s.drop_last(), f);
        match f(s.last()) {
            Some(b) => rest.push(b),
            None => rest,
        }
    }
}

/// One step of `filter_map` over a growing prefix.
pub proof fn lemma_filter_map_step<A, B>(s: Seq<A>, f: spec_fn(A) -> Option<B>, i: int)
    requires
        0 <= i < s.len(),
    ensures
        filter_map(s.take(i + 1), f) == match f(s[i]) {
            Some(b) => filter_map(s.take(i), f).push(b),
            None => filter_map(s.take(i), f),
        },
{
    assert(s.take(i + 1).drop_last() =~= s.take(i));
    assert(s.take(i + 1).last() == s[i]);
}

/// How a parameter takes part in an indicator: which parameter, with what weight.
pub struct ParameterApplication {
    pub parameter_ref: String,
    pub weight: String,
}

pub struct ParameterApplicationView {
    pub parameter_ref: Seq<char>,
    pub weight: Seq<char>,
}

impl View for ParameterApplication {
    type V = ParameterApplicationView;

    open spec fn view(&self) -> ParameterApplicationView {
        ParameterApplicationView { parameter_ref: self.parameter_ref@, weight: self.weight@ }
    }
}

/// An indicator and the parameters it applies.
pub struct IndicatorConfig {
    pub id: String,
    pub parameter_applications: Vec<ParameterApplication>,
}

pub struct IndicatorConfigView {
    pub id: Seq<char>,
    pub parameter_applications: Seq<ParameterApplicationView>,
}

impl View for IndicatorConfig {
    type V = IndicatorConfigView;

    open spec fn view(&self) -> IndicatorConfigView {
        IndicatorConfigView {
            id: self.id@,
            parameter_applications: self.parameter_applications@.map_values(
                |a: ParameterApplication| a@,
            ),
        }
    }
}

/// A question: its weight and the score of each answer option, in the order
/// the options are declared.
pub struct QuestionSpec {
    pub id: String,
    pub weight: String,
    pub answer_options: Vec<(String, String)>,
}

pub struct QuestionSpecView {
    pub id: Seq<char>,
    pub weight: Seq<char>,
    pub answer_options: Seq<(Seq<char>, Seq<char>)>,
}

impl View for QuestionSpec {
    type V = QuestionSpecView;

    open spec fn view(&self) -> QuestionSpecView {
        QuestionSpecView {
            id: self.id@,
            weight: self.weight@,
            answer_options: self.answer_options@.map_values(|p: (String, String)| (p.0@, p.1@)),
        }
    }
}

/// A parameter and its questions.
pub struct ParameterSpec {
    pub id: String,
    pub questions: Vec<QuestionSpec>,
}

pub struct ParameterSpecView {
    pub id: Seq<char>,
    pub questions: Seq<QuestionSpecView>,
}

impl View for ParameterSpec {
    type V = ParameterSpecView;

    open spec fn view(&self) -> ParameterSpecView {
        ParameterSpecView {
            id: self.id@,
            questions: self.questions@.map_values(|q: QuestionSpec| q@),
        }
    }
}

/// The `string(...)` default of the attribute `key` of `class`.
pub open spec fn string_value(class: ClassDefinition, key: Seq<char>) -> Option<Seq<char>> {
    match ifabsent_of(class, key) {
        Some(t) => ifabsent_string_spec(t),
        None => None,
    }
}

/// The `float(...)` default of the attribute `key` of `class`.
pub open spec fn float_value(class: ClassDefinition, key: Seq<char>) -> Option<Seq<char>> {
    match ifabsent_of(class, key) {
        Some(t) => ifabsent_float_spec(t),
        None => None,
    }
}

/// The parameter application that the class `member` describes.
pub open spec fn application_of(classes: Seq<(String, ClassDefinition)>, member: Seq<char>) -> Option<
    ParameterApplicationView,
> {
    match find_class_spec(classes, member) {
        Some(c) => match (string_value(c, "parameter_ref"@), float_value(c, "weight"@)) {
            (Some(r), Some(w)) => Some(ParameterApplicationView { parameter_ref: r, weight: w }),
            _ => None,
        },
        None => None,
    }
}

/// The indicator configuration that `class_def` describes.
pub open spec fn indicator_config_of(
    class_def: ClassDefinition,
    classes: Seq<(String, ClassDefinition)>,
) -> Option<IndicatorConfigView> {
    match (string_value(class_def, "id"@), range_of(class_def, "parameter_applications"@)) {
        (Some(id), Some(range)) => Some(
            IndicatorConfigView {
                id,
                parameter_applications: filter_map(
                    union_expansion(classes, range),
                    |m: Seq<char>| application_of(classes, m),
                ),
            },
        ),
        _ => None,
    }
}

/// The answer option (its id and score) that the class `member` describes.
pub open spec fn answer_option_of(classes: Seq<(String, ClassDefinition)>, member: Seq<char>) -> Option<
    (Seq<char>, Seq<char>),
> {
    match find_class_spec(classes, member) {
        Some(c) => match (string_value(c, "id"@), float_value(c, "score"@)) {
            (Some(id), Some(score)) => Some((id, score)),
            _ => None,
        },
        None => None,
    }
}

/// The question that the class `class_name` describes.
pub open spec fn question_of(classes: Seq<(String, ClassDefinition)>, class_name: Seq<char>) -> Option<
    QuestionSpecView,
> {
    match find_class_spec(classes, class_name) {
        Some(c) => match (
            string_value(c, "id"@),
            float_value(c, "weight"@),
            range_of(c, "answer_options"@),
        ) {
            (Some(id), Some(weight), Some(range)) => Some(
                QuestionSpecView {
                    id,
                    weight,
                    answer_options: filter_map(
                        union_expansion(classes, range),
                        |m: Seq<char>| answer_option_of(classes, m),
                    ),
                },
            ),
            _ => None,
        },
        None => None,
    }
}

/// The parameter specification that `class_def` describes.
pub open spec fn parameter_spec_of(
    class_def: ClassDefinition,
    classes: Seq<(String, ClassDefinition)>,
) -> Option<ParameterSpecView> {
    match (string_value(class_def, "id"@), range_of(class_def, "questions"@)) {
        (Some(id), Some(range)) => Some(
            ParameterSpecView {
                id,
                questions: filter_map(
                    union_expansion(classes, range),
                    |m: Seq<char>| question_of(classes, m),
                ),
            },
        ),
        _ => None,
    }
}

/// The `string(...)` default of the attribute `key` of `class`.
fn string_attribute(class: &ClassDefinition, key: &str) -> (r: Option<String>)
    ensures
        match r {
            Some(s) => string_value(*class, key@) == Some(s@),
            None => string_value(*class, key@) is None,
        },
{
    match attribute_ifabsent(class, key) {
        Some(t) => parse_ifabsent_string(t.as_str()),
        None => None,
    }
}

/// The `float(...)` default of the attribute `key` of `class`.
fn float_attribute(class: &ClassDefinition, key: &str) -> (r: Option<String>)
    ensures
        match r {
            Some(s) => float_value(*class, key@) == Some(s@),
            None => float_value(*class, key@) is None,
        },
{
    match attribute_ifabsent(class, key) {
        Some(t) => parse_ifabsent_float(t.as_str()),
        None => None,
    }
}

/// The parameter application that the class `member` describes.
fn build_parameter_application(member: &str, classes: &Vec<(String, ClassDefinition)>) -> (r: Option<
    ParameterApplication,
>)
    ensures
        match r {
            Some(a) => application_of(classes@, member@) == Some(a@),
            None => application_of(classes@, member@) is None,
        },
{
    let class = match find_class(classes, member) {
        Some(c) => c,
        None => return None,
    };
    let parameter_ref = match string_attribute(class, "parameter_ref") {
        Some(r) => r,
        None => return None,
    };
    let weight = match float_attribute(class, "weight") {
        Some(w) => w,
        None => return None,
    };
    Some(ParameterApplication { parameter_ref, weight })
}

/// The indicator configuration that `class_def` describes, where it carries an
/// id and a range of parameter applications.
pub fn build_indicator_config(
    _class_name: &str,
    class_def: &ClassDefinition,
    classes: &Vec<(String, ClassDefinition)>,
) -> (r: Option<IndicatorConfig>)
    requires
        config_expansion_bounded(*class_def, classes@),
    ensures
        match r {
            Some(c) => indicator_config_of(*class_def, classes@) == Some(c@),
            None => indicator_config_of(*class_def, classes@) is None,
        },
{
    let id = match string_attribute(class_def, "id") {
        Some(id) => id,
        None => return None,
    };
    let range = match attribute_range(class_def, "parameter_applications") {
        Some(r) => r,
        None => return None,
    };
    assert(expand_spec(classes@, range@, classes@.len()) is Some);
    let members = expand_union_members(range.as_str(), classes);
    let ghost names = names_of(members@);
    let mut applications: Vec<ParameterApplication> = Vec::new();
    let n = members.len();
    let mut i: usize = 0;
    assert(names.take(0) =~= Seq::<Seq<char>>::empty());
    assert(applications@.map_values(|a: ParameterApplication| a@) =~= Seq::<
        ParameterApplicationView,
    >::empty());
    while i < n
        invariant
            n == members@.len(),
            names == names_of(members@),
            i <= n,
            applications@.map_values(|a: ParameterApplication| a@) == filter_map(
                names.take(i as int),
                |m: Seq<char>| application_of(classes@, m),
            ),
        decreases n - i,
    {
        proof {
            lemma_filter_map_step(names, |m: Seq<char>| application_of(classes@, m), i as int);
            assert(names[i as int] == members@[i as int]@);
        }
        let ghost before = applications@;
        match build_parameter_application(members[i].as_str(), classes) {
            Some(a) => {
                applications.push(a);
                assert(applications@.map_values(|a: ParameterApplication| a@) =~= before.map_values(
                    |a: ParameterApplication| a@,
                ).push(a@));
            },
            None => {},
        }
        i = i + 1;
    }
    assert(names.take(n as int) =~= names);
    Some(IndicatorConfig { id, parameter_applications: applications })
}

/// The answer option (its id and score) that the class `member` describes.
fn build_answer_option(member: &str, classes: &Vec<(String, ClassDefinition)>) -> (r: Option<
    (String, String),
>)
    ensures
        match r {
            Some(p) => answer_option_of(classes@, member@) == Some((p.0@, p.1@)),
            None => answer_option_of(classes@, member@) is None,
        },
{
    let class = match find_class(classes, member) {
        Some(c) => c,
        None => return None,
    };
    let id = match string_attribute(class, "id") {
        Some(id) => id,
        None => return None,
    };
    let score = match float_attribute(class, "score") {
        Some(s) => s,
        None => return None,
    };
    Some((id, score))
}

/// The question that the class `class_name` describes, where it carries an id,
/// a weight and a range of answer options.
pub fn build_question_spec(class_name: &str, classes: &Vec<(String, ClassDefinition)>) -> (r: Option<
    QuestionSpec,
>)
    requires
        question_expansion_bounded(classes@, class_name@),
    ensures
        match r {
            Some(q) => question_of(classes@, class_name@) == Some(q@),
            None => question_of(classes@, class_name@) is None,
        },
{
    let class_def = match find_class(classes, class_name) {
        Some(c) => c,
        None => return None,
    };
    let id = match string_attribute(class_def, "id") {
        Some(id) => id,
        None => return None,
    };
    let weight = match float_attribute(class_def, "weight") {
        Some(w) => w,
        None => return None,
    };
    let range = match attribute_range(class_def, "answer_options") {
        Some(r) => r,
        None => return None,
    };
    assert(expand_spec(classes@, range@, classes@.len()) is Some);
    let members = expand_union_members(range.as_str(), classes);
    let ghost names = names_of(members@);
    let mut options: Vec<(String, String)> = Vec::new();
    let n = members.len();
    let mut i: usize = 0;
    assert(names.take(0) =~= Seq::<Seq<char>>::empty());
    assert(options@.map_values(|p: (String, String)| (p.0@, p.1@)) =~= Seq::<
        (Seq<char>, Seq<char>),
    >::empty());
    while i < n
        invariant
            n == members@.len(),
            names == names_of(members@),
            i <= n,
            options@.map_values(|p: (String, String)| (p.0@, p.1@)) == filter_map(
                names.take(i as int),
                |m: Seq<char>| answer_option_of(classes@, m),
            ),
        decreases n - i,
    {
        proof {
            lemma_filter_map_step(names, |m: Seq<char>| answer_option_of(classes@, m), i as int);
            assert(names[i as int] == members@[i as int]@);
        }
        let ghost before = options@;
        match build_answer_option(members[i].as_str(), classes) {
            Some(p) => {
                options.push(p);
                assert(options@.map_values(|p: (String, String)| (p.0@, p.1@)) =~= before.map_values(
                    |p: (String, String)| (p.0@, p.1@),
                ).push((p.0@, p.1@)));
            },
            None => {},
        }
        i = i + 1;
    }
    assert(names.take(n as int) =~= names);
    Some(QuestionSpec { id, weight, answer_options: options })
}

/// The parameter specification that `class_def` describes, where it carries
/// an id and a range of questions.
pub fn build_parameter_spec(
    _class_name: &str,
    class_def: &ClassDefinition,
    classes: &Vec<(String, ClassDefinition)>,
) -> (r: Option<ParameterSpec>)
    requires
        parameter_expansion_bounded(*class_def, classes@),
    ensures
        match r {
            Some(p) => parameter_spec_of(*class_def, classes@) == Some(p@),
            None => parameter_spec_of(*class_def, classes@) is None,
        },
{
    let id = match string_attribute(class_def, "id") {
        Some(id) => id,
        None => return None,
    };
    let range = match attribute_range(class_def, "questions") {
        Some(r) => r,
        None => return None,
    };
    assert(expand_spec(classes@, range@, classes@.len()) is Some);
    let members = expand_union_members(range.as_str(), classes);
    let ghost names = names_of(members@);
    let mut questions: Vec<QuestionSpec> = Vec::new();
    let n = members.len();
    let mut i: usize = 0;
    assert(names.take(0) =~= Seq::<Seq<char>>::empty());
    assert(questions@.map_values(|q: QuestionSpec| q@) =~= Seq::<QuestionSpecView>::empty());
    while i < n
        invariant
            n == members@.len(),
            names == names_of(members@),
            forall|j: int|
                0 <= j < names.len() ==> question_expansion_bounded(classes@, #[trigger] names[j]),
            i <= n,
            questions@.map_values(|q: QuestionSpec| q@) == filter_map(
                names.take(i as int),
                |m: Seq<char>| question_of(classes@, m),
            ),
        decreases n - i,
    {
        proof {
            lemma_filter_map_step(names, |m: Seq<char>| question_of(classes@, m), i as int);
            assert(names[i as int] == members@[i as int]@);
        }
        let ghost before = questions@;
        match build_question_spec(members[i].as_str(), classes) {
            Some(q) => {
                questions.push(q);
                assert(questions@.map_values(|q: QuestionSpec| q@) =~= before.map_values(
                    |q: QuestionSpec| q@,
                ).push(q@));
            },
            None => {},
        }
        i = i + 1;
    }
    assert(names.take(n as int) =~= names);
    Some(ParameterSpec { id, questions })
}

/// Whether `class` is declared a specialisation of `parent`.
pub open spec fn is_a_spec(class: ClassDefinition, parent: Seq<char>) -> bool {
    match class.is_a {
        Some(s) => s@ == parent,
        None => false,
    }
}

/// The indicator configurations that one document describes, in the order of its classes.
pub open spec fn document_configs(classes: Seq<(String, ClassDefinition)>) -> Seq<IndicatorConfigView> {
    filter_map(
        classes,
        |e: (String, ClassDefinition)|
            if is_a_spec(e.1, "IndicatorProductConfiguration"@) {
                indicator_config_of(e.1, classes)
            } else {
                None
            },
    )
}

/// The parameter specifications that one document describes, in the order of its classes.
pub open spec fn document_parameters(classes: Seq<(String, ClassDefinition)>) -> Seq<ParameterSpecView> {
    filter_map(
        classes,
        |e: (String, ClassDefinition)|
            if is_a_spec(e.1, "ParameterSpecification"@) {
                parameter_spec_of(e.1, classes)
            } else {
                None
            },
    )
}

/// The indicator configurations of `documents`, document after document.
pub open spec fn documents_configs(documents: Seq<SchemaDocument>) -> Seq<IndicatorConfigView>
    decreases documents.len(),
{
    if documents.len() == 0 {
        Seq::empty()
    } else {
        documents_configs(documents.drop_last()) + document_configs(documents.last().classes@)
    }
}

/// The parameter specifications of `documents`, document after document.
pub open spec fn documents_parameters(documents: Seq<SchemaDocument>) -> Seq<ParameterSpecView>
    decreases documents.len(),
{
    if documents.len() == 0 {
        Seq::empty()
    } else {
        documents_parameters(documents.drop_last()) + document_parameters(
            documents.last().classes@,
        )
    }
}

/// The configuration with id `id` among `configs`: the last one, as a later
/// definition replaces an earlier one.
pub open spec fn config_with_id(configs: Seq<IndicatorConfigView>, id: Seq<char>) -> Option<
    IndicatorConfigView,
>
    decreases configs.len(),
{
    if configs.len() == 0 {
        None
    } else if configs.last().id == id {
        Some(configs.last())
    } else {
        config_with_id(configs.drop_last(), id)
    }
}

/// The parameter specification with id `id` among `parameters`: the last one.
pub open spec fn parameter_with_id(parameters: Seq<ParameterSpecView>, id: Seq<char>) -> Option<
    ParameterSpecView,
>
    decreases parameters.len(),
{
    if parameters.len() == 0 {
        None
    } else if parameters.last().id == id {
        Some(parameters.last())
    } else {
        parameter_with_id(parameters.drop_last(), id)
    }
}

/// The indicator configurations and parameter specifications that were loaded,
/// each in the order it was read; where two share an id, the later one counts.
pub struct IndicatorSpecRepository {
    pub indicator_configs: Vec<IndicatorConfig>,
    pub parameter_specs: Vec<ParameterSpec>,
}

impl IndicatorSpecRepository {
    pub open spec fn configs_view(&self) -> Seq<IndicatorConfigView> {
        self.indicator_configs@.map_values(|c: IndicatorConfig| c@)
    }

    pub open spec fn parameters_view(&self) -> Seq<ParameterSpecView> {
        self.parameter_specs@.map_values(|p: ParameterSpec| p@)
    }

    /// The repository that `documents` describe, read in order.
    pub fn from_documents(documents: &Vec<SchemaDocument>) -> (r: Self)
        requires
            forall|i: int| 0 <= i < documents@.len() ==> loading_bounded(#[trigger] documents@[i].classes@),
        ensures
            r.configs_view() == documents_configs(documents@),
            r.parameters_view() == documents_parameters(documents@),
    {
        let mut indicator_configs: Vec<IndicatorConfig> = Vec::new();
        let mut parameter_specs: Vec<ParameterSpec> = Vec::new();
        let nd = documents.len();
        let mut d: usize = 0;
        assert(documents@.take(0) =~= Seq::<SchemaDocument>::empty());
        assert(indicator_configs@.map_values(|c: IndicatorConfig| c@) =~= Seq::<
            IndicatorConfigView,
        >::empty());
        assert(parameter_specs@.map_values(|p: ParameterSpec| p@) =~= Seq::<ParameterSpecView>::empty());
        while d < nd
            invariant
                nd == documents@.len(),
                d <= nd,
                forall|i: int| 0 <= i < documents@.len() ==> loading_bounded(#[trigger] documents@[i].classes@),
                indicator_configs@.map_values(|c: IndicatorConfig| c@) == documents_configs(
                    documents@.take(d as int),
                ),
                parameter_specs@.map_values(|p: ParameterSpec| p@) == documents_parameters(
                    documents@.take(d as int),
                ),
            decreases nd - d,
        {
            let classes = &documents[d].classes;
            let ghost cs = classes@;
            assert(loading_bounded(documents@[d as int].classes@));
            let ghost configs_before = indicator_configs@.map_values(|c: IndicatorConfig| c@);
            let ghost params_before = parameter_specs@.map_values(|p: ParameterSpec| p@);
            let nc = classes.len();
            let mut k: usize = 0;
            assert(cs.take(0) =~= Seq::<(String, ClassDefinition)>::empty());
            assert(configs_before + document_configs(cs.take(0)) =~= configs_before);
            assert(params_before + document_parameters(cs.take(0)) =~= params_before);
            while k < nc
                invariant
                    nc == cs.len(),
                    cs == classes@,
                    k <= nc,
                    loading_bounded(cs),
                    indicator_configs@.map_values(|c: IndicatorConfig| c@) == configs_before
                        + filter_map(
                        cs.take(k as int),
                        |e: (String, ClassDefinition)|
                            if is_a_spec(e.1, "IndicatorProductConfiguration"@) {
                                indicator_config_of(e.1, cs)
                            } else {
                                None
                            },
                    ),
                    parameter_specs@.map_values(|p: ParameterSpec| p@) == params_before
                        + filter_map(
                        cs.take(k as int),
                        |e: (String, ClassDefinition)|
                            if is_a_spec(e.1, "ParameterSpecification"@) {
                                parameter_spec_of(e.1, cs)
                            } else {
                                None
                            },
                    ),
                decreases nc - k,
            {
                proof {
                    lemma_filter_map_step(
                        cs,
                        |e: (String, ClassDefinition)|
                            if is_a_spec(e.1, "IndicatorProductConfiguration"@) {
                                indicator_config_of(e.1, cs)
                            } else {
                                None
                            },
                        k as int,
                    );
                    lemma_filter_map_step(
                        cs,
                        |e: (String, ClassDefinition)|
                            if is_a_spec(e.1, "ParameterSpecification"@) {
                                parameter_spec_of(e.1, cs)
                            } else {
                                None
                            },
                        k as int,
                    );
                }
                let entry = &classes[k];
                assert(entry_bounded(cs[k as int].1, cs));
                let ghost c_before = indicator_configs@;
                let ghost p_before = parameter_specs@;
                if class_is_a(&entry.1, "IndicatorProductConfiguration") {
                    match build_indicator_config(entry.0.as_str(), &entry.1, classes) {
                        Some(config) => {
                            indicator_configs.push(config);
                            assert(indicator_configs@.map_values(|c: IndicatorConfig| c@)
                                =~= c_before.map_values(|c: IndicatorConfig| c@).push(config@));
                        },
                        None => {},
                    }
                }
                if class_is_a(&entry.1, "ParameterSpecification") {
                    match build_parameter_spec(entry.0.as_str(), &entry.1, classes) {
                        Some(parameter) => {
                            parameter_specs.push(parameter);
                            assert(parameter_specs@.map_values(|p: ParameterSpec| p@)
                                =~= p_before.map_values(|p: ParameterSpec| p@).push(parameter@));
                        },
                        None => {},
                    }
                }
                k = k + 1;
            }
            assert(cs.take(nc as int) =~= cs);
            assert(documents@.take(d + 1).drop_last() =~= documents@.take(d as int));
            assert(documents@.take(d + 1).last() == documents@[d as int]);
            d = d + 1;
        }
        assert(documents@.take(nd as int) =~= documents@);
        IndicatorSpecRepository { indicator_configs, parameter_specs }
    }

    /// The indicator configuration with id `id`.
    pub fn indicator_config(&self, id: &str) -> (r: Option<&IndicatorConfig>)
        ensures
            match r {
                Some(c) => config_with_id(self.configs_view(), id@) == Some(c@),
                None => config_with_id(self.configs_view(), id@) is None,
            },
    {
        let ghost configs = self.configs_view();
        let mut i: usize = self.indicator_configs.len();
        assert(configs.take(i as int) =~= configs);
        while i > 0
            invariant
                configs == self.configs_view(),
                i <= self.indicator_configs@.len(),
                config_with_id(configs, id@) == config_with_id(configs.take(i as int), id@),
            decreases i,
        {
            assert(configs.take(i as int).last() == self.indicator_configs@[i - 1]@);
            if str_eq(self.indicator_configs[i - 1].id.as_str(), id) {
                return Some(&self.indicator_configs[i - 1]);
            }
            assert(configs.take(i as int).drop_last() =~= configs.take(i - 1));
            i = i - 1;
        }
        None
    }

    /// The parameter specification with id `id`.
    pub fn parameter_spec(&self, id: &str) -> (r: Option<&ParameterSpec>)
        ensures
            match r {
                Some(p) => parameter_with_id(self.parameters_view(), id@) == Some(p@),
                None => parameter_with_id(self.parameters_view(), id@) is None,
            },
    {
        let ghost parameters = self.parameters_view();
        let mut i: usize = self.parameter_specs.len();
        assert(parameters.take(i as int) =~= parameters);
        while i > 0
            invariant
                parameters == self.parameters_view(),
                i <= self.parameter_specs@.len(),
                parameter_with_id(parameters, id@) == parameter_with_id(
                    parameters.take(i as int),
                    id@,
                ),
            decreases i,
        {
            assert(parameters.take(i as int).last() == self.parameter_specs@[i - 1]@);
            if str_eq(self.parameter_specs[i - 1].id.as_str(), id) {
                return Some(&self.parameter_specs[i - 1]);
            }
            assert(parameters.take(i as int).drop_last() =~= parameters.take(i - 1));
            i = i - 1;
        }
        None
    }
}

/// Whether `class` is declared a specialisation of `parent`.
fn class_is_a(class: &ClassDefinition, parent: &str) -> (b: bool)
    ensures
        b == is_a_spec(*class, parent@),
{
    match &class.is_a {
        Some(s) => str_eq(s.as_str(), parent),
        None => false,
    }
}

/// A class that an expansion yields unites nothing: it is no class, or a class
/// whose `union_of` is empty.
pub open spec fn is_leaf(classes: Seq<(String, ClassDefinition)>, name: Seq<char>) -> bool {
    match find_class_spec(classes, name) {
        None => true,
        Some(c) => c.union_of@.len() == 0,
    }
}

/// Every class that the expansion of a union yields unites nothing.
pub proof fn lemma_expansion_yields_leaves(
    classes: Seq<(String, ClassDefinition)>,
    name: Seq<char>,
    fuel: nat,
)
    requires
        expand_spec(classes, name, fuel) is Some,
    ensures
        forall|i: int|
            0 <= i < expand_spec(classes, name, fuel).unwrap().len() ==> is_leaf(
                classes,
                #[trigger] expand_spec(classes, name, fuel).unwrap()[i],
            ),
    decreases fuel, 0nat,
{
    match find_class_spec(classes, name) {
        None => {},
        Some(class) => {
            if class.union_of@.len() > 0 && fuel > 0 {
                lemma_members_yield_leaves(classes, union_names(class), (fuel - 1) as nat);
            }
        },
    }
}

/// Every class that the expansions of `members` yield unites nothing.
pub proof fn lemma_members_yield_leaves(
    classes: Seq<(String, ClassDefinition)>,
    members: Seq<Seq<char>>,
    fuel: nat,
)
    requires
        expand_members_spec(classes, members, fuel) is Some,
    ensures
        forall|i: int|
            0 <= i < expand_members_spec(classes, members, fuel).unwrap().len() ==> is_leaf(
                classes,
                #[trigger] expand_members_spec(classes, members, fuel).unwrap()[i],
            ),
    decreases fuel, members.len() + 1,
{
    if members.len() > 0 {
        lemma_members_yield_leaves(classes, members.drop_last(), fuel);
        lemma_expansion_yields_leaves(classes, members.last(), fuel);
        let a = expand_members_spec(classes, members.drop_last(), fuel).unwrap();
        let b = expand_spec(classes, members.last(), fuel).unwrap();
        assert forall|i: int| 0 <= i < (a + b).len() implies is_leaf(classes, #[trigger] (a + b)[i]) by {
            if i < a.len() {
                assert((a + b)[i] == a[i]);
            } else {
                assert((a + b)[i] == b[i - a.len()]);
            }
        }
    }
}

/// A `string(...)` default gives back the text that was put in it.
pub proof fn lemma_ifabsent_string_round_trip(s: Seq<char>)
    ensures
        ifabsent_string_spec("string("@ + s + seq![')']) == Some(s),
{
    reveal_strlit("string(");
    let v = "string("@ + s + seq![')'];
    assert(v.subrange(0, 7) =~= "string("@);
    assert(v.subrange(7, v.len() - 1) =~= s);
}

/// A `float(...)` default gives back the text that was put in it exactly when
/// that text is a number that `f64` parsing accepts.
pub proof fn lemma_ifabsent_float_round_trip(s: Seq<char>)
    ensures
        ifabsent_float_spec("float("@ + s + seq![')']) == (if is_float_literal(s) {
            Some(s)
        } else {
            None
        }),
{
    reveal_strlit("float(");
    let v = "float("@ + s + seq![')'];
    assert(v.subrange(0, 6) =~= "float("@);
    assert(v.subrange(6, v.len() - 1) =~= s);
}

/// A `float(...)` default holding a non-empty run of digits, whole or with a
/// fraction, gives back that number.
pub proof fn lemma_ifabsent_float_digits(a: Seq<char>, b: Seq<char>)
    requires
        forall|i: int| 0 <= i < a.len() ==> is_ascii_digit(#[trigger] a[i]),
        forall|i: int| 0 <= i < b.len() ==> is_ascii_digit(#[trigger] b[i]),
    ensures
        a.len() > 0 ==> ifabsent_float_spec("float("@ + a + seq![')']) == Some(a),
        a.len() + b.len() > 0 ==> ifabsent_float_spec("float("@ + (a + seq!['.'] + b) + seq![')'])
            == Some(a + seq!['.'] + b),
{
    lemma_digit_runs_are_float_literals(a, b, Seq::<char>::empty());
    lemma_ifabsent_float_round_trip(a);
    lemma_ifabsent_float_round_trip(a + seq!['.'] + b);
}

/// Of two sets of configurations read one after the other, a configuration of
/// the later set replaces one of the earlier set with the same id.
pub proof fn lemma_later_config_replaces_earlier(
    earlier: Seq<IndicatorConfigView>,
    later: Seq<IndicatorConfigView>,
    id: Seq<char>,
)
    ensures
        config_with_id(earlier + later, id) == match config_with_id(later, id) {
            Some(c) => Some(c),
            None => config_with_id(earlier, id),
        },
    decreases later.len(),
{
    if later.len() == 0 {
        assert(earlier + later =~= earlier);
    } else {
        assert((earlier + later).drop_last() =~= earlier + later.drop_last());
        assert((earlier + later).last() == later.last());
        lemma_later_config_replaces_earlier(earlier, later.drop_last(), id);
    }
}

/// Of two sets of parameter specifications read one after the other, a
/// specification of the later set replaces one of the earlier set with the same id.
pub proof fn lemma_later_parameter_replaces_earlier(
    earlier: Seq<ParameterSpecView>,
    later: Seq<ParameterSpecView>,
    id: Seq<char>,
)
    ensures
        parameter_with_id(earlier + later, id) == match parameter_with_id(later, id) {
            Some(p) => Some(p),
            None => parameter_with_id(earlier, id),
        },
    decreases later.len(),
{
    if later.len() == 0 {
        assert(earlier + later =~= earlier);
    } else {
        assert((earlier + later).drop_last() =~= earlier + later.drop_last());
        assert((earlier + later).last() == later.last());
        lemma_later_parameter_replaces_earlier(earlier, later.drop_last(), id);
    }
}

/// The configuration found under an id carries that id.
pub proof fn lemma_config_with_id_matches(configs: Seq<IndicatorConfigView>, id: Seq<char>)
    ensures
        config_with_id(configs, id) matches Some(c) ==> c.id == id,
    decreases configs.len(),
{
    if configs.len() > 0 && configs.last().id != id {
        lemma_config_with_id_matches(configs.drop_last(), id);
    }
}

/// The parameter specification found under an id carries that id.
pub proof fn lemma_parameter_with_id_matches(parameters: Seq<ParameterSpecView>, id: Seq<char>)
    ensures
        parameter_with_id(parameters, id) matches Some(p) ==> p.id == id,
    decreases parameters.len(),
{
    if parameters.len() > 0 && parameters.last().id != id {
        lemma_parameter_with_id_matches(parameters.drop_last(), id);
    }
}

/// Whether the expansion that building an indicator configuration from
/// `class_def` performs ends.
pub open spec fn config_expansion_bounded(
    class_def: ClassDefinition,
    classes: Seq<(String, ClassDefinition)>,
) -> bool {
    match (string_value(class_def, "id"@), range_of(class_def, "parameter_applications"@)) {
        (Some(_), Some(range)) => expansion_bounded(classes, range),
        _ => true,
    }
}

/// Whether the expansion that building a question from the class `member` performs ends.
pub open spec fn question_expansion_bounded(
    classes: Seq<(String, ClassDefinition)>,
    member: Seq<char>,
) -> bool {
    match find_class_spec(classes, member) {
        Some(c) => match (
            string_value(c, "id"@),
            float_value(c, "weight"@),
            range_of(c, "answer_options"@),
        ) {
            (Some(_), Some(_), Some(range)) => expansion_bounded(classes, range),
            _ => true,
        },
        None => true,
    }
}

/// Whether the expansions that building a parameter specification from
/// `class_def` performs end: that of its questions, and that of each question's
/// answer options.
pub open spec fn parameter_expansion_bounded(
    class_def: ClassDefinition,
    classes: Seq<(String, ClassDefinition)>,
) -> bool {
    match (string_value(class_def, "id"@), range_of(class_def, "questions"@)) {
        (Some(_), Some(range)) => {
            &&& expansion_bounded(classes, range)
            &&& forall|j: int|
                0 <= j < union_expansion(classes, range).len() ==> question_expansion_bounded(
                    classes,
                    #[trigger] union_expansion(classes, range)[j],
                )
        },
        _ => true,
    }
}

/// Whether loading the class `class_def` ends.
pub open spec fn entry_bounded(class_def: ClassDefinition, classes: Seq<(String, ClassDefinition)>) -> bool {
    &&& is_a_spec(class_def, "IndicatorProductConfiguration"@) ==> config_expansion_bounded(
        class_def,
        classes,
    )
    &&& is_a_spec(class_def, "ParameterSpecification"@) ==> parameter_expansion_bounded(
        class_def,
        classes,
    )
}

/// Whether loading a document with these classes ends: every union that the
/// loading expands is free of cycles.
pub open spec fn loading_bounded(classes: Seq<(String, ClassDefinition)>) -> bool {
    forall|k: int| 0 <= k < classes.len() ==> entry_bounded(#[trigger] classes[k].1, classes)
}

fn config_expansion_is_bounded(class_def: &ClassDefinition, classes: &Vec<(String, ClassDefinition)>) -> (b: bool)
    ensures
        b == config_expansion_bounded(*class_def, classes@),
{
    match (string_attribute(class_def, "id"), attribute_range(class_def, "parameter_applications")) {
        (Some(_), Some(range)) => expansion_is_bounded(range.as_str(), classes),
        _ => true,
    }
}

fn question_expansion_is_bounded(member: &str, classes: &Vec<(String, ClassDefinition)>) -> (b: bool)
    ensures
        b == question_expansion_bounded(classes@, member@),
{
    match find_class(classes, member) {
        Some(c) => match (
            string_attribute(c, "id"),
            float_attribute(c, "weight"),
            attribute_range(c, "answer_options"),
        ) {
            (Some(_), Some(_), Some(range)) => expansion_is_bounded(range.as_str(), classes),
            _ => true,
        },
        None => true,
    }
}

fn parameter_expansion_is_bounded(class_def: &ClassDefinition, classes: &Vec<(String, ClassDefinition)>) -> (b: bool)
    ensures
        b == parameter_expansion_bounded(*class_def, classes@),
{
    let range = match (string_attribute(class_def, "id"), attribute_range(class_def, "questions")) {
        (Some(_), Some(range)) => range,
        _ => return true,
    };
    let members = match expand_with_fuel(range.as_str(), classes, classes.len()) {
        Some(m) => m,
        None => return false,
    };
    let ghost names = names_of(members@);
    assert(names == union_expansion(classes@, range@));
    let n = members.len();
    let mut i: usize = 0;
    while i < n
        invariant
            n == members@.len(),
            names == names_of(members@),
            names == union_expansion(classes@, range@),
            string_value(*class_def, "id"@) is Some,
            range_of(*class_def, "questions"@) == Some(range@),
            i <= n,
            forall|j: int| 0 <= j < i ==> question_expansion_bounded(classes@, #[trigger] names[j]),
        decreases n - i,
    {
        assert(names[i as int] == members@[i as int]@);
        if !question_expansion_is_bounded(members[i].as_str(), classes) {
            assert(!question_expansion_bounded(
                classes@,
                union_expansion(classes@, range@)[i as int],
            ));
            return false;
        }
        i = i + 1;
    }
    true
}

/// Whether loading a document with these classes ends (see `loading_bounded`).
pub fn loading_is_bounded(classes: &Vec<(String, ClassDefinition)>) -> (b: bool)
    ensures
        b == loading_bounded(classes@),
{
    let n = classes.len();
    let mut k: usize = 0;
    while k < n
        invariant
            n == classes@.len(),
            k <= n,
            forall|j: int| 0 <= j < k ==> entry_bounded(#[trigger] classes@[j].1, classes@),
        decreases n - k,
    {
        let c = &classes[k].1;
        if class_is_a(c, "IndicatorProductConfiguration") && !config_expansion_is_bounded(c, classes) {
            return false;
        }
        if class_is_a(c, "ParameterSpecification") && !parameter_expansion_is_bounded(c, classes) {
            return false;
        }
        k = k + 1;
    }
    true
}

/// The position of the last `'.'` in `name`, where there is one.
pub open spec fn last_dot(name: Seq<char>) -> Option<int>
    decreases name.len(),
{
    if name.len() == 0 {
        None
    } else if name.last() == '.' {
        Some(name.len() - 1)
    } else {
        last_dot(name.drop_last())
    }
}

/// The extension of a file name, as `Path::extension` gives it: what follows
/// the last `'.'`, unless there is no `'.'` or the only one starts the name.
pub open spec fn extension_spec(file_name: Seq<char>) -> Option<Seq<char>> {
    match last_dot(file_name) {
        Some(k) => if k == 0 {
            None
        } else {
            Some(file_name.skip(k + 1))
        },
        None => None,
    }
}

/// Whether a file of the indicator directory is read: its extension is `yaml`.
pub fn is_yaml_file_name(file_name: &str) -> (b: bool)
    ensures
        b == (extension_spec(file_name@) == Some("yaml"@)),
{
    let v = crate::text::chars_of(file_name);
    let mut i: usize = v.len();
    assert(file_name@.take(i as int) =~= file_name@);
    while i > 0 && v[i - 1] != '.'
        invariant
            v@ == file_name@,
            i <= v@.len(),
            last_dot(file_name@) == last_dot(file_name@.take(i as int)),
        decreases i,
    {
        assert(file_name@.take(i as int).drop_last() =~= file_name@.take(i - 1));
        i = i - 1;
    }
    if i <= 1 {
        return false;
    }
    assert(file_name@.take(i as int).last() == '.');
    let rest = file_name.substring_char(i, v.len());
    assert(rest@ =~= file_name@.skip(i as int));
    str_eq(rest, "yaml")
}

/// More fuel does not change an expansion that has ended.
proof fn lemma_expand_fuel_monotone(
    classes: Seq<(String, ClassDefinition)>,
    name: Seq<char>,
    f: nat,
    g: nat,
)
    requires
        f <= g,
        expand_spec(classes, name, f) is Some,
    ensures
        expand_spec(classes, name, g) == expand_spec(classes, name, f),
    decreases f, 0nat,
{
    match find_class_spec(classes, name) {
        None => {},
        Some(class) => {
            if class.union_of@.len() > 0 {
                lemma_members_fuel_monotone(
                    classes,
                    union_names(class),
                    (f - 1) as nat,
                    (g - 1) as nat,
                );
            }
        },
    }
}

/// More fuel does not change the expansions of members that have ended.
proof fn lemma_members_fuel_monotone(
    classes: Seq<(String, ClassDefinition)>,
    members: Seq<Seq<char>>,
    f: nat,
    g: nat,
)
    requires
        f <= g,
        expand_members_spec(classes, members, f) is Some,
    ensures
        expand_members_spec(classes, members, g) == expand_members_spec(classes, members, f),
    decreases f, members.len() + 1,
{
    if members.len() > 0 {
        lemma_members_fuel_monotone(classes, members.drop_last(), f, g);
        lemma_expand_fuel_monotone(classes, members.last(), f, g);
    }
}

/// The expansions of `members`, one after another.
pub open spec fn concat_expansions(classes: Seq<(String, ClassDefinition)>, members: Seq<Seq<char>>) -> Seq<
    Seq<char>,
>
    decreases members.len(),
{
    if members.len() == 0 {
        Seq::empty()
    } else {
        concat_expansions(classes, members.drop_last()) + union_expansion(classes, members.last())
    }
}

proof fn lemma_members_unfold(
    classes: Seq<(String, ClassDefinition)>,
    members: Seq<Seq<char>>,
    f: nat,
)
    requires
        f <= classes.len(),
        expand_members_spec(classes, members, f) is Some,
    ensures
        forall|i: int| 0 <= i < members.len() ==> expansion_bounded(classes, #[trigger] members[i]),
        expand_members_spec(classes, members, f).unwrap() == concat_expansions(classes, members),
    decreases members.len(),
{
    if members.len() > 0 {
        lemma_members_unfold(classes, members.drop_last(), f);
        lemma_expand_fuel_monotone(classes, members.last(), f, classes.len());
        assert forall|i: int| 0 <= i < members.len() implies expansion_bounded(classes, #[trigger] members[i]) by {
            if i < members.len() - 1 {
                assert(members.drop_last()[i] == members[i]);
            }
        }
    }
}

/// Where the expansion of `name` ends, it follows its definition: a name that
/// is no class, or a class that unites nothing, stands for itself; a union
/// stands for the expansions of its members, one after another, each of which
/// ends too.
pub proof fn lemma_union_expansion_unfolds(classes: Seq<(String, ClassDefinition)>, name: Seq<char>)
    requires
        expansion_bounded(classes, name),
    ensures
        match find_class_spec(classes, name) {
            None => union_expansion(classes, name) == seq![name],
            Some(c) => if c.union_of@.len() == 0 {
                union_expansion(classes, name) == seq![name]
            } else {
                &&& forall|i: int|
                    0 <= i < union_names(c).len() ==> expansion_bounded(
                        classes,
                        #[trigger] union_names(c)[i],
                    )
                &&& union_expansion(classes, name) == concat_expansions(classes, union_names(c))
            },
        },
{
    match find_class_spec(classes, name) {
        None => {},
        Some(c) => {
            if c.union_of@.len() > 0 {
                lemma_members_unfold(classes, union_names(c), (classes.len() - 1) as nat);
            }
        },
    }
}

/// The names among `names` that the indicator directory's loading reads: those
/// whose extension is `yaml`, in order.
pub open spec fn yaml_names_spec(names: Seq<Seq<char>>) -> Seq<Seq<char>> {
    filter_map(
        names,
        |n: Seq<char>|
            if extension_spec(n) == Some("yaml"@) {
                Some(n)
            } else {
                None
            },
    )
}

/// `filter_map` over two sequences one after the other.
pub proof fn lemma_filter_map_concat<A, B>(a: Seq<A>, b: Seq<A>, f: spec_fn(A) -> Option<B>)
    ensures
        filter_map(a + b, f) == filter_map(a, f) + filter_map(b, f),
    decreases b.len(),
{
    if b.len() == 0 {
        assert(a + b =~= a);
        assert(filter_map(a, f) + filter_map(b, f) =~= filter_map(a, f));
    } else {
        assert((a + b).drop_last() =~= a + b.drop_last());
        assert((a + b).last() == b.last());
        lemma_filter_map_concat(a, b.drop_last(), f);
        match f(b.last()) {
            Some(x) => {
                assert(filter_map(a, f) + filter_map(b.drop_last(), f).push(x) =~= (filter_map(a, f)
                    + filter_map(b.drop_last(), f)).push(x));
            },
            None => {},
        }
    }
}

/// A directory entry whose extension is not `yaml` changes nothing about which
/// files are read, wherever it stands among the others.
pub proof fn lemma_other_entries_ignored(before: Seq<Seq<char>>, name: Seq<char>, after: Seq<Seq<char>>)
    requires
        extension_spec(name) != Some("yaml"@),
    ensures
        yaml_names_spec(before + seq![name] + after) == yaml_names_spec(before + after),
{
    let f = |n: Seq<char>|
        if extension_spec(n) == Some("yaml"@) {
            Some(n)
        } else {
            None
        };
    lemma_filter_map_concat(before + seq![name], after, f);
    lemma_filter_map_concat(before, seq![name], f);
    lemma_filter_map_concat(before, after, f);
    assert(seq![name].drop_last() =~= Seq::<Seq<char>>::empty());
    assert(seq![name].last() == name);
    assert(f(name) is None);
    assert(filter_map(Seq::<Seq<char>>::empty(), f) =~= Seq::<Seq<char>>::empty());
    assert(filter_map(seq![name], f) =~= Seq::<Seq<char>>::empty());
    assert(filter_map(before, f) + Seq::<Seq<char>>::empty() =~= filter_map(before, f));
}

/// The positions, in order, of the entries among `names` that are read: those
/// whose extension is `yaml`.
pub fn yaml_file_positions(names: &Vec<String>) -> (r: Vec<usize>)
    ensures
        forall|j: int| 0 <= j < r@.len() ==> #[trigger] r@[j] < names@.len(),
        forall|j: int, k: int| 0 <= j < k < r@.len() ==> r@[j] < r@[k],
        r@.map_values(|i: usize| names@[i as int]@) == yaml_names_spec(names_of(names@)),
{
    let ghost all = names_of(names@);
    let n = names.len();
    let mut r: Vec<usize> = Vec::new();
    let mut i: usize = 0;
    assert(all.take(0) =~= Seq::<Seq<char>>::empty());
    assert(r@.map_values(|i: usize| names@[i as int]@) =~= Seq::<Seq<char>>::empty());
    while i < n
        invariant
            n == names@.len(),
            all == names_of(names@),
            i <= n,
            forall|j: int| 0 <= j < r@.len() ==> #[trigger] r@[j] < i,
            forall|j: int, k: int| 0 <= j < k < r@.len() ==> r@[j] < r@[k],
            r@.map_values(|i: usize| names@[i as int]@) == filter_map(
                all.take(i as int),
                |n: Seq<char>|
                    if extension_spec(n) == Some("yaml"@) {
                        Some(n)
                    } else {
                        None
                    },
            ),
        decreases n - i,
    {
        proof {
            lemma_filter_map_step(
                all,
                |n: Seq<char>|
                    if extension_spec(n) == Some("yaml"@) {
                        Some(n)
                    } else {
                        None
                    },
                i as int,
            );
            assert(all[i as int] == names@[i as int]@);
        }
        let ghost before = r@;
        if is_yaml_file_name(names[i].as_str()) {
            r.push(i);
            assert(r@.map_values(|i: usize| names@[i as int]@) =~= before.map_values(
                |i: usize| names@[i as int]@,
            ).push(names@[i as int]@));
        }
        i = i + 1;
    }
    assert(all.take(n as int) =~= all);
    r
}

/// Every value that `f` gives an element of `s` is among the values of `filter_map`.
pub proof fn lemma_filter_map_contains<A, B>(s: Seq<A>, f: spec_fn(A) -> Option<B>, j: int)
    requires
        0 <= j < s.len(),
        f(s[j]) is Some,
    ensures
        filter_map(s, f).contains(f(s[j])->0),
    decreases s.len(),
{
    let rest = s.drop_last();
    if j == s.len() - 1 {
        assert(filter_map(s, f) == filter_map(rest, f).push(f(s[j])->0));
        assert(filter_map(s, f)[filter_map(rest, f).len() as int] == f(s[j])->0);
    } else {
        assert(rest[j] == s[j]);
        lemma_filter_map_contains(rest, f, j);
        let k = choose|k: int| 0 <= k < filter_map(rest, f).len() && filter_map(rest, f)[k] == f(s[j])->0;
        match f(s.last()) {
            Some(b) => {
                assert(filter_map(s, f)[k] == filter_map(rest, f)[k]);
            },
            None => {},
        }
    }
}

/// Documents read one after another yield the configurations and parameter
/// specifications of the first, followed by those of the second.
pub proof fn lemma_documents_concat(ds1: Seq<SchemaDocument>, ds2: Seq<SchemaDocument>)
    ensures
        documents_configs(ds1 + ds2) == documents_configs(ds1) + documents_configs(ds2),
        documents_parameters(ds1 + ds2) == documents_parameters(ds1) + documents_parameters(ds2),
    decreases ds2.len(),
{
    if ds2.len() == 0 {
        assert(ds1 + ds2 =~= ds1);
        assert(documents_configs(ds1) + documents_configs(ds2) =~= documents_configs(ds1));
        assert(documents_parameters(ds1) + documents_parameters(ds2) =~= documents_parameters(ds1));
    } else {
        assert((ds1 + ds2).drop_last() =~= ds1 + ds2.drop_last());
        assert((ds1 + ds2).last() == ds2.last());
        lemma_documents_concat(ds1, ds2.drop_last());
        let l = ds2.last().classes@;
        assert(documents_configs(ds1) + documents_configs(ds2.drop_last()) + document_configs(l)
            =~= documents_configs(ds1) + (documents_configs(ds2.drop_last()) + document_configs(l)));
        assert(documents_parameters(ds1) + documents_parameters(ds2.drop_last()) + document_parameters(
            l,
        ) =~= documents_parameters(ds1) + (documents_parameters(ds2.drop_last())
            + document_parameters(l)));
    }
}

/// A document appended to the list adds its own configurations and parameter
/// specifications after those already read; a single document yields its own.
pub proof fn lemma_appended_document(ds: Seq<SchemaDocument>, d: SchemaDocument)
    ensures
        documents_configs(ds.push(d)) == documents_configs(ds) + document_configs(d.classes@),
        documents_parameters(ds.push(d)) == documents_parameters(ds) + document_parameters(d.classes@),
        documents_configs(seq![d]) == document_configs(d.classes@),
        documents_parameters(seq![d]) == document_parameters(d.classes@),
{
    assert(ds.push(d).drop_last() =~= ds);
    let e = Seq::<SchemaDocument>::empty();
    assert(seq![d].drop_last() =~= e);
    assert(seq![d].last() == d);
    assert(documents_configs(e) == Seq::<IndicatorConfigView>::empty());
    assert(documents_parameters(e) == Seq::<ParameterSpecView>::empty());
    assert(Seq::<IndicatorConfigView>::empty() + document_configs(d.classes@) =~= document_configs(
        d.classes@,
    ));
    assert(Seq::<ParameterSpecView>::empty() + document_parameters(d.classes@) =~= document_parameters(
        d.classes@,
    ));
}

/// A configuration is found under an id exactly when one of the configurations carries it.
pub proof fn lemma_config_with_id_found(configs: Seq<IndicatorConfigView>, id: Seq<char>)
    ensures
        config_with_id(configs, id) is None <==> (forall|i: int|
            0 <= i < configs.len() ==> #[trigger] configs[i].id != id),
    decreases configs.len(),
{
    if configs.len() > 0 {
        let rest = configs.drop_last();
        lemma_config_with_id_found(rest, id);
        assert(configs[configs.len() - 1] == configs.last());
        if forall|i: int| 0 <= i < configs.len() ==> #[trigger] configs[i].id != id {
            assert forall|i: int| 0 <= i < rest.len() implies #[trigger] rest[i].id != id by {
                assert(configs[i] == rest[i]);
            }
        }
        if configs.last().id != id && config_with_id(rest, id) is None {
            assert forall|i: int| 0 <= i < configs.len() implies #[trigger] configs[i].id != id by {
                if i < configs.len() - 1 {
                    assert(configs[i] == rest[i]);
                }
            }
        }
    }
}

/// A parameter specification is found under an id exactly when one of them carries it.
pub proof fn lemma_parameter_with_id_found(parameters: Seq<ParameterSpecView>, id: Seq<char>)
    ensures
        parameter_with_id(parameters, id) is None <==> (forall|i: int|
            0 <= i < parameters.len() ==> #[trigger] parameters[i].id != id),
    decreases parameters.len(),
{
    if parameters.len() > 0 {
        let rest = parameters.drop_last();
        lemma_parameter_with_id_found(rest, id);
        assert(parameters[parameters.len() - 1] == parameters.last());
        if forall|i: int| 0 <= i < parameters.len() ==> #[trigger] parameters[i].id != id {
            assert forall|i: int| 0 <= i < rest.len() implies #[trigger] rest[i].id != id by {
                assert(parameters[i] == rest[i]);
            }
        }
        if parameters.last().id != id && parameter_with_id(rest, id) is None {
            assert forall|i: int| 0 <= i < parameters.len() implies #[trigger] parameters[i].id != id by {
                if i < parameters.len() - 1 {
                    assert(parameters[i] == rest[i]);
                }
            }
        }
    }
}

/// Whichever document holds it, a class declared an indicator product
/// configuration that describes one is loaded, and its id then names a configuration.
pub proof fn lemma_every_document_config_loaded(ds: Seq<SchemaDocument>, k: int, j: int)
    requires
        0 <= k < ds.len(),
        0 <= j < ds[k].classes@.len(),
        is_a_spec(ds[k].classes@[j].1, "IndicatorProductConfiguration"@),
        indicator_config_of(ds[k].classes@[j].1, ds[k].classes@) is Some,
    ensures
        documents_configs(ds).contains(indicator_config_of(ds[k].classes@[j].1, ds[k].classes@)->0),
        config_with_id(
            documents_configs(ds),
            (indicator_config_of(ds[k].classes@[j].1, ds[k].classes@)->0).id,
        ) is Some,
{
    let cs = ds[k].classes@;
    let c = indicator_config_of(cs[j].1, cs)->0;
    lemma_filter_map_contains(
        cs,
        |e: (String, ClassDefinition)|
            if is_a_spec(e.1, "IndicatorProductConfiguration"@) {
                indicator_config_of(e.1, cs)
            } else {
                None
            },
        j,
    );
    assert(document_configs(cs).contains(c));
    let before = ds.take(k);
    let after = ds.skip(k + 1);
    assert(ds =~= before + seq![ds[k]] + after);
    lemma_documents_concat(before + seq![ds[k]], after);
    lemma_documents_concat(before, seq![ds[k]]);
    lemma_appended_document(before, ds[k]);
    let all = documents_configs(ds);
    let p = documents_configs(before);
    let q = document_configs(cs);
    assert(all == p + q + documents_configs(after));
    let i = choose|i: int| 0 <= i < q.len() && q[i] == c;
    assert(all[p.len() + i] == c);
    lemma_config_with_id_found(all, c.id);
    assert(all[p.len() + i].id == c.id);
}

/// Whichever document holds it, a class declared a parameter specification
/// that describes one is loaded, and its id then names a specification.
pub proof fn lemma_every_document_parameter_loaded(ds: Seq<SchemaDocument>, k: int, j: int)
    requires
        0 <= k < ds.len(),
        0 <= j < ds[k].classes@.len(),
        is_a_spec(ds[k].classes@[j].1, "ParameterSpecification"@),
        parameter_spec_of(ds[k].classes@[j].1, ds[k].classes@) is Some,
    ensures
        documents_parameters(ds).contains(parameter_spec_of(ds[k].classes@[j].1, ds[k].classes@)->0),
        parameter_with_id(
            documents_parameters(ds),
            (parameter_spec_of(ds[k].classes@[j].1, ds[k].classes@)->0).id,
        ) is Some,
{
    let cs = ds[k].classes@;
    let c = parameter_spec_of(cs[j].1, cs)->0;
    lemma_filter_map_contains(
        cs,
        |e: (String, ClassDefinition)|
            if is_a_spec(e.1, "ParameterSpecification"@) {
                parameter_spec_of(e.1, cs)
            } else {
                None
            },
        j,
    );
    assert(document_parameters(cs).contains(c));
    let before = ds.take(k);
    let after = ds.skip(k + 1);
    assert(ds =~= before + seq![ds[k]] + after);
    lemma_documents_concat(before + seq![ds[k]], after);
    lemma_documents_concat(before, seq![ds[k]]);
    lemma_appended_document(before, ds[k]);
    let all = documents_parameters(ds);
    let p = documents_parameters(before);
    let q = document_parameters(cs);
    assert(all == p + q + documents_parameters(after));
    let i = choose|i: int| 0 <= i < q.len() && q[i] == c;
    assert(all[p.len() + i] == c);
    lemma_parameter_with_id_found(all, c.id);
    assert(all[p.len() + i].id == c.id);
}

/// A class is found under a name exactly when an entry carries that name, and
/// what is found is the class of the first such entry.
pub proof fn lemma_find_class_found(classes: Seq<(String, ClassDefinition)>, name: Seq<char>)
    ensures
        find_class_spec(classes, name) is None <==> (forall|i: int|
            0 <= i < classes.len() ==> #[trigger] classes[i].0@ != name),
        find_class_spec(classes, name) matches Some(c) ==> exists|i: int|
            0 <= i < classes.len() && #[trigger] classes[i].0@ == name && classes[i].1 == c && (forall|j: int|
                0 <= j < i ==> #[trigger] classes[j].0@ != name),
    decreases classes.len(),
{
    if classes.len() > 0 {
        let rest = classes.drop_first();
        lemma_find_class_found(rest, name);
        if classes[0].0@ == name {
            assert(classes[0].0@ == name);
        } else {
            if find_class_spec(rest, name) is None {
                assert forall|i: int| 0 <= i < classes.len() implies #[trigger] classes[i].0@ != name by {
                    if i > 0 {
                        assert(classes[i] == rest[i - 1]);
                    }
                }
            } else {
                let c = find_class_spec(rest, name)->0;
                let i = choose|i: int|
                    0 <= i < rest.len() && #[trigger] rest[i].0@ == name && rest[i].1 == c && (forall|j: int|
                        0 <= j < i ==> #[trigger] rest[j].0@ != name);
                assert(classes[i + 1] == rest[i]);
                assert forall|j: int| 0 <= j < i + 1 implies #[trigger] classes[j].0@ != name by {
                    if j > 0 {
                        assert(classes[j] == rest[j - 1]);
                    }
                }
            }
            if forall|i: int| 0 <= i < classes.len() ==> #[trigger] classes[i].0@ != name {
                assert forall|i: int| 0 <= i < rest.len() implies #[trigger] rest[i].0@ != name by {
                    assert(classes[i + 1] == rest[i]);
                }
            }
        }
    }
}

/// An attribute is found under a key exactly when an entry carries that key,
/// and what is found is the attribute of the first such entry.
pub proof fn lemma_find_attribute_found(attributes: Seq<(String, AttributeDefinition)>, key: Seq<char>)
    ensures
        find_attribute_spec(attributes, key) is None <==> (forall|i: int|
            0 <= i < attributes.len() ==> #[trigger] attributes[i].0@ != key),
        find_attribute_spec(attributes, key) matches Some(a) ==> exists|i: int|
            0 <= i < attributes.len() && #[trigger] attributes[i].0@ == key && attributes[i].1 == a && (
            forall|j: int| 0 <= j < i ==> #[trigger] attributes[j].0@ != key),
    decreases attributes.len(),
{
    if attributes.len() > 0 {
        let rest = attributes.drop_first();
        lemma_find_attribute_found(rest, key);
        if attributes[0].0@ == key {
            assert(attributes[0].0@ == key);
        } else {
            if find_attribute_spec(rest, key) is None {
                assert forall|i: int| 0 <= i < attributes.len() implies #[trigger] attributes[i].0@ != key by {
                    if i > 0 {
                        assert(attributes[i] == rest[i - 1]);
                    }
                }
            } else {
                let a = find_attribute_spec(rest, key)->0;
                let i = choose|i: int|
                    0 <= i < rest.len() && #[trigger] rest[i].0@ == key && rest[i].1 == a && (forall|j: int|
                        0 <= j < i ==> #[trigger] rest[j].0@ != key);
                assert(attributes[i + 1] == rest[i]);
                assert forall|j: int| 0 <= j < i + 1 implies #[trigger] attributes[j].0@ != key by {
                    if j > 0 {
                        assert(attributes[j] == rest[j - 1]);
                    }
                }
            }
            if forall|i: int| 0 <= i < attributes.len() ==> #[trigger] attributes[i].0@ != key {
                assert forall|i: int| 0 <= i < rest.len() implies #[trigger] rest[i].0@ != key by {
                    assert(attributes[i + 1] == rest[i]);
                }
            }
        }
    }
}

/// The last `'.'` of a name: a name without one has none, and text without one
/// appended after a `'.'` leaves that `'.'` the last.
pub proof fn lemma_last_dot(p: Seq<char>, ext: Seq<char>)
    requires
        forall|i: int| 0 <= i < ext.len() ==> #[trigger] ext[i] != '.',
    ensures
        last_dot(ext) is None,
        last_dot(p + seq!['.'] + ext) == Some(p.len() as int),
    decreases ext.len(),
{
    if ext.len() == 0 {
        assert(p + seq!['.'] + ext =~= p.push('.'));
    } else {
        let e = ext.drop_last();
        assert forall|i: int| 0 <= i < e.len() implies #[trigger] e[i] != '.' by {
            assert(e[i] == ext[i]);
        }
        lemma_last_dot(p, e);
        assert((p + seq!['.'] + ext).drop_last() =~= p + seq!['.'] + e);
        assert(ext.last() == ext[ext.len() - 1]);
    }
}

/// A name with no `'.'` has no extension; a non-empty stem, a `'.'` and text
/// without a `'.'` have that text as their extension.
pub proof fn lemma_extension_after_last_dot(stem: Seq<char>, ext: Seq<char>)
    requires
        forall|i: int| 0 <= i < ext.len() ==> #[trigger] ext[i] != '.',
    ensures
        extension_spec(ext) is None,
        stem.len() > 0 ==> extension_spec(stem + seq!['.'] + ext) == Some(ext),
{
    lemma_last_dot(stem, ext);
    assert((stem + seq!['.'] + ext).skip(stem.len() + 1int) =~= ext);
}

/// Every member of a question's answer range that describes an answer option
/// is one of the question's options.
pub proof fn lemma_question_offers_every_member_option(
    classes: Seq<(String, ClassDefinition)>,
    class_name: Seq<char>,
    c: ClassDefinition,
    range: Seq<char>,
    k: int,
)
    requires
        question_of(classes, class_name) is Some,
        find_class_spec(classes, class_name) == Some(c),
        range_of(c, "answer_options"@) == Some(range),
        0 <= k < union_expansion(classes, range).len(),
        answer_option_of(classes, union_expansion(classes, range)[k]) is Some,
    ensures
        (question_of(classes, class_name)->0).answer_options.contains(
            answer_option_of(classes, union_expansion(classes, range)[k])->0,
        ),
{
    lemma_filter_map_contains(
        union_expansion(classes, range),
        |m: Seq<char>| answer_option_of(classes, m),
        k,
    );
}

/// Every member of a parameter specification's question range that describes a
/// question is one of the specification's questions.
pub proof fn lemma_parameter_asks_every_member_question(
    classes: Seq<(String, ClassDefinition)>,
    class_def: ClassDefinition,
    range: Seq<char>,
    k: int,
)
    requires
        parameter_spec_of(class_def, classes) is Some,
        range_of(class_def, "questions"@) == Some(range),
        0 <= k < union_expansion(classes, range).len(),
        question_of(classes, union_expansion(classes, range)[k]) is Some,
    ensures
        (parameter_spec_of(class_def, classes)->0).questions.contains(
            question_of(classes, union_expansion(classes, range)[k])->0,
        ),
{
    lemma_filter_map_contains(
        union_expansion(classes, range),
        |m: Seq<char>| question_of(classes, m),
        k,
    );
}

/// Every member of an indicator configuration's application range that
/// describes a parameter application is one of the configuration's applications.
pub proof fn lemma_config_applies_every_member_application(
    classes: Seq<(String, ClassDefinition)>,
    class_def: ClassDefinition,
    range: Seq<char>,
    k: int,
)
    requires
        indicator_config_of(class_def, classes) is Some,
        range_of(class_def, "parameter_applications"@) == Some(range),
        0 <= k < union_expansion(classes, range).len(),
        application_of(classes, union_expansion(classes, range)[k]) is Some,
    ensures
        (indicator_config_of(class_def, classes)->0).parameter_applications.contains(
            application_of(classes, union_expansion(classes, range)[k])->0,
        ),
{
    lemma_filter_map_contains(
        union_expansion(classes, range),
        |m: Seq<char>| application_of(classes, m),
        k,
    );
}

} // verus!
