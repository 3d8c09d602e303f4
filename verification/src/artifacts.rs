//! The published artifacts of one version of the RE indicators specification.
use vstd::prelude::*;

use crate::text::{
    contains_seq, lemma_replace_absent, lemma_replace_at_start, lemma_replace_skips_prefix,
    replace_all, replace_spec,
};
use crate::{ARTIFACT_BASE_URL_TEMPLATE, DEFAULT_TESTING_VERSION};

verus! {

/// The placeholder that a base URL template holds for the model version.
pub open spec fn version_placeholder() -> Seq<char> {
    seq!['{', 'v', 'e', 'r', 's', 'i', 'o', 'n', '}']
}

/// The model version that a request resolves to: the one it names, else the
/// default testing version.
pub open spec fn resolved_version(version: Option<Seq<char>>) -> Seq<char> {
    match version {
        Some(v) => v,
        None => DEFAULT_TESTING_VERSION@,
    }
}

/// The artifact base URL that `template` gives for `version`: every `{version}`
/// in it replaced by the version.
pub open spec fn base_url_for(template: Seq<char>, version: Seq<char>) -> Seq<char> {
    replace_spec(template, version_placeholder(), version)
}

/// The URLs of the artifacts published for one model version.
pub struct ArtifactSet {
    pub model_version: String,
    pub base_url: String,
    pub calculation_url: String,
    pub shacl_url: String,
    pub schema_url: String,
    pub owl_url: String,
}

impl ArtifactSet {
    /// Whether each artifact URL is the base URL followed by the artifact's file name.
    pub open spec fn urls_follow_base(&self) -> bool {
        &&& self.calculation_url@ == self.base_url@ + "calculation.json"@
        &&& self.shacl_url@ == self.base_url@ + "shacl.ttl"@
        &&& self.schema_url@ == self.base_url@ + "schema.json"@
        &&& self.owl_url@ == self.base_url@ + "owl.ttl"@
    }

    /// The artifact set of the requested version (the default testing version
    /// when none is requested), its base URL taken from `template`.
    pub fn for_requested_version_with_template(version: Option<&str>, template: &str) -> (r: Self)
        ensures
            r.model_version@ == resolved_version(
                match version {
                    Some(v) => Some(v@),
                    None => None,
                },
            ),
            r.base_url@ == base_url_for(template@, r.model_version@),
            r.urls_follow_base(),
    {
        let resolved: String = match version {
            Some(v) => v.to_owned(),
            None => DEFAULT_TESTING_VERSION.to_owned(),
        };
        let placeholder = "{version}";
        proof {
            reveal_strlit("{version}");
            assert(placeholder@ =~= version_placeholder());
        }
        let base_url = replace_all(template, placeholder, resolved.as_str());
        Self::from_base_url(resolved, base_url)
    }

    /// The artifact set of the requested version under the service's fixed template.
    pub fn for_requested_version(version: Option<&str>) -> (r: Self)
        ensures
            r.model_version@ == resolved_version(
                match version {
                    Some(v) => Some(v@),
                    None => None,
                },
            ),
            r.base_url@ == base_url_for(ARTIFACT_BASE_URL_TEMPLATE@, r.model_version@),
            r.urls_follow_base(),
    {
        Self::for_requested_version_with_template(version, ARTIFACT_BASE_URL_TEMPLATE)
    }

    /// The artifact set under `base_url`.
    pub fn from_base_url(model_version: String, base_url: String) -> (r: Self)
        ensures
            r.model_version@ == model_version@,
            r.base_url@ == base_url@,
            r.urls_follow_base(),
    {
        let mut calculation_url = base_url.clone();
        calculation_url.append("calculation.json");
        let mut shacl_url = base_url.clone();
        shacl_url.append("shacl.ttl");
        let mut schema_url = base_url.clone();
        schema_url.append("schema.json");
        let mut owl_url = base_url.clone();
        owl_url.append("owl.ttl");
        Self { model_version, calculation_url, shacl_url, schema_url, owl_url, base_url }
    }
}

/// A template that holds no `{version}` is the base URL of every version.
pub proof fn lemma_template_without_placeholder(template: Seq<char>, version: Seq<char>)
    requires
        !contains_seq(template, version_placeholder()),
    ensures
        base_url_for(template, version) == template,
{
    lemma_replace_absent(template, version_placeholder(), version);
}

/// Under the service's own template, the base URL of a version is the
/// generated-artifacts directory of the `pages-v` tag of that version.
pub proof fn lemma_service_template_base_url(version: Seq<char>)
    ensures
        base_url_for(ARTIFACT_BASE_URL_TEMPLATE@, version)
            == "https://codeberg.org/CE-RISE-models/re-indicators-specification/src/tag/pages-v"@
            + version + "/generated/"@,
{
    let p = "https://codeberg.org/CE-RISE-models/re-indicators-specification/src/tag/pages-v"@;
    let q = "/generated/"@;
    let ph = version_placeholder();
    reveal_strlit("https://codeberg.org/CE-RISE-models/re-indicators-specification/src/tag/pages-v");
    reveal_strlit("/generated/");
    reveal_strlit(
        "https://codeberg.org/CE-RISE-models/re-indicators-specification/src/tag/pages-v{version}/generated/",
    );
    assert(ARTIFACT_BASE_URL_TEMPLATE@ =~= p + (ph + q));
    assert forall|i: int| 0 <= i < p.len() implies p[i] != ph[0] by {}
    assert forall|i: int| 0 <= i < q.len() implies q[i] != ph[0] by {}
    lemma_replace_skips_prefix(p, ph + q, ph, version);
    lemma_replace_at_start(ph, q, version);
    lemma_replace_skips_prefix(q, Seq::empty(), ph, version);
    assert(q + Seq::<char>::empty() =~= q);
    assert(p + (version + q) =~= p + version + q);
}

/// Every `{version}` of a template is replaced by the version, and the text
/// around the placeholders is kept as it is.
pub proof fn lemma_every_placeholder_replaced(
    p1: Seq<char>,
    p2: Seq<char>,
    p3: Seq<char>,
    version: Seq<char>,
)
    requires
        forall|i: int| 0 <= i < p1.len() ==> #[trigger] p1[i] != '{',
        forall|i: int| 0 <= i < p2.len() ==> #[trigger] p2[i] != '{',
        forall|i: int| 0 <= i < p3.len() ==> #[trigger] p3[i] != '{',
    ensures
        base_url_for(p1 + version_placeholder() + p2 + version_placeholder() + p3, version)
            == p1 + version + p2 + version + p3,
{
    let ph = version_placeholder();
    let empty = Seq::<char>::empty();
    assert(ph[0] == '{');
    assert(p1 + ph + p2 + ph + p3 =~= p1 + (ph + (p2 + (ph + p3))));
    lemma_replace_skips_prefix(p1, ph + (p2 + (ph + p3)), ph, version);
    lemma_replace_at_start(ph, p2 + (ph + p3), version);
    lemma_replace_skips_prefix(p2, ph + p3, ph, version);
    lemma_replace_at_start(ph, p3, version);
    lemma_replace_skips_prefix(p3, empty, ph, version);
    assert(p3 + empty =~= p3);
    assert(replace_spec(empty, ph, version) == empty);
    assert(p1 + (version + (p2 + (version + (p3 + empty)))) =~= p1 + version + p2 + version + p3);
}

} // verus!
