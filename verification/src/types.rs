use vstd::prelude::*;

use crate::json::{entries_data, lemma_values_data, values_data, JsonData, JsonMap, JsonNumber, JsonValue};

verus! {

/// Rule severity levels.
#[derive(Debug, Clone, Copy, PartialEq, Eq, Structural)]
pub enum Severity {
    Low,
    Medium,
    High,
    Critical,
}

impl Default for Severity {
    fn default() -> (r: Self)
        ensures
            r == Severity::Medium,
    {
        Severity::Medium
    }
}

/// Rule consequence decisions.
#[derive(Debug, Clone, Copy, PartialEq, Eq, Structural)]
pub enum Decision {
    Allow,
    Deny,
    Flag,
}

/// Overall decision status.
#[derive(Debug, Clone, Copy, PartialEq, Eq, Structural)]
pub enum DecisionStatus {
    Allow,
    AllowWithFlags,
    Deny,
}

/// Rule evaluation result.
#[derive(Debug, Clone, Copy, PartialEq, Eq, Structural)]
pub enum EvaluationResult {
    Pass,
    Fail,
    Skip,
    Error,
}

/// A point in time: whole seconds since the Unix epoch (UTC) and the
/// nanoseconds within that second.
#[derive(Debug, Clone, Copy, PartialEq, Eq, Structural)]
pub struct Timestamp {
    pub secs: i64,
    pub nanos: u32,
}

/// Plugin manifest describing capabilities.
#[derive(Debug)]
pub struct PluginManifest {
    pub id: String,
    pub name: String,
    pub version: String,
    pub author: String,
    pub description: String,
    pub entity_types: Vec<String>,
    pub event_types: Vec<String>,
    pub dependencies: Vec<String>,
    pub pact_core_version: String,
    pub config_schema: Option<JsonMap>,
}

/// Domain-specific event before conversion.
#[derive(Debug)]
pub struct DomainEvent {
    pub event_type: String,
    pub payload: JsonMap,
    pub entity_id: Option<String>,
    pub jurisdiction: Option<String>,
    pub occurred_at: Option<Timestamp>,
    pub metadata: JsonMap,
}

/// Canonical PACT event.
#[derive(Debug)]
pub struct PactEvent {
    pub id: String,
    pub source: String,
    pub event_type: String,
    pub entity_id: Option<String>,
    pub entity_type: Option<String>,
    pub jurisdiction: Option<String>,
    pub payload: JsonMap,
    pub occurred_at: Timestamp,
    pub received_at: Timestamp,
    pub metadata: JsonMap,
}

/// PACT entity.
#[derive(Debug)]
pub struct PactEntity {
    pub id: String,
    pub entity_type: String,
    pub data: JsonMap,
    pub created_at: Timestamp,
    pub updated_at: Timestamp,
    pub jurisdiction: Option<String>,
    pub metadata: JsonMap,
}

/// Entity type definition with schema.
#[derive(Debug)]
pub struct PactEntityType {
    pub name: String,
    pub description: String,
    pub schema: JsonMap,
    pub required_fields: Vec<String>,
}

/// Condition types for rules.
#[derive(Debug)]
pub enum Condition {
    Compare { field: String, operator: String, value: JsonValue },
    And { conditions: Vec<Condition> },
    Or { conditions: Vec<Condition> },
    Not { condition: Box<Condition> },
    Exists { field: String },
    In { field: String, values: Vec<JsonValue> },
    Range {
        field: String,
        min: Option<JsonNumber>,
        max: Option<JsonNumber>,
        min_inclusive: bool,
        max_inclusive: bool,
    },
    Expression { expression: String, language: String },
}

/// The value that a missing inclusivity flag of a range condition takes.
pub fn default_true() -> (r: bool)
    ensures
        r,
{
    true
}

/// The language that an expression condition without one is written in.
pub fn default_language() -> (r: String)
    ensures
        r@ == seq!['c', 'e', 'l'],
{
    let s = String::from_str("cel");
    proof {
        reveal_strlit("cel");
    }
    s
}

/// Rule consequence.
#[derive(Debug)]
pub struct Consequence {
    pub decision: Decision,
    pub code: String,
    pub message: String,
    pub metadata: JsonMap,
}

/// PACT rule.
#[derive(Debug)]
pub struct PactRule {
    pub id: String,
    pub name: String,
    pub description: String,
    pub jurisdiction: Option<String>,
    pub severity: Severity,
    pub condition: Condition,
    pub consequence: Consequence,
    pub tags: Vec<String>,
    pub effective_from: Option<Timestamp>,
    pub effective_to: Option<Timestamp>,
    pub metadata: JsonMap,
}

/// Result of evaluating a rule.
#[derive(Debug, Clone)]
pub struct RuleEvaluation {
    pub rule_id: String,
    pub rule_name: String,
    pub result: EvaluationResult,
    pub code: Option<String>,
    pub message: Option<String>,
    pub duration_ms: i64,
}

/// Decision from rule evaluation.
#[derive(Debug)]
pub struct PactDecision {
    pub id: String,
    pub event_id: String,
    pub status: DecisionStatus,
    pub rule_evaluations: Vec<RuleEvaluation>,
    pub created_at: Timestamp,
    pub metadata: JsonMap,
}

/// Validation error.
#[derive(Debug, Clone)]
pub struct ValidationError {
    pub field: String,
    pub message: String,
    pub code: String,
}

/// Validation warning.
#[derive(Debug, Clone)]
pub struct ValidationWarning {
    pub field: String,
    pub message: String,
}

/// Result of validation.
#[derive(Debug, Clone)]
pub struct ValidationResult {
    pub valid: bool,
    pub errors: Vec<ValidationError>,
    pub warnings: Vec<ValidationWarning>,
}

impl ValidationResult {
    /// Creates a successful validation result.
    pub fn success() -> (r: Self)
        ensures
            r.valid,
            r.errors@.len() == 0,
            r.warnings@.len() == 0,
    {
        ValidationResult { valid: true, errors: Vec::new(), warnings: Vec::new() }
    }

    /// Creates a failed validation result.
    pub fn failure(errors: Vec<ValidationError>) -> (r: Self)
        ensures
            !r.valid,
            r.errors == errors,
            r.warnings@.len() == 0,
    {
        ValidationResult { valid: false, errors, warnings: Vec::new() }
    }
}


/// The characters of an optional string.
pub open spec fn opt_text(o: Option<String>) -> Option<Seq<char>> {
    match o {
        Some(s) => Some(s@),
        None => None,
    }
}

/// The characters of each string of a sequence.
pub open spec fn texts(s: Seq<String>) -> Seq<Seq<char>> {
    s.map_values(|x: String| x@)
}

/// The text of an optional JSON number.
pub open spec fn opt_number(o: Option<JsonNumber>) -> Option<Seq<char>> {
    match o {
        Some(n) => Some(n.text_view()),
        None => None,
    }
}

/// The content of a condition.
pub enum ConditionData {
    Compare { field: Seq<char>, operator: Seq<char>, value: JsonData },
    And { conditions: Seq<ConditionData> },
    Or { conditions: Seq<ConditionData> },
    Not { condition: Box<ConditionData> },
    Exists { field: Seq<char> },
    In { field: Seq<char>, values: Seq<JsonData> },
    Range {
        field: Seq<char>,
        min: Option<Seq<char>>,
        max: Option<Seq<char>>,
        min_inclusive: bool,
        max_inclusive: bool,
    },
    Expression { expression: Seq<char>, language: Seq<char> },
}

impl Condition {
    /// The content of this condition.
    pub open spec fn data(&self) -> ConditionData
        decreases self,
    {
        match self {
            Condition::Compare { field, operator, value } => ConditionData::Compare {
                field: field@,
                operator: operator@,
                value: value.data(),
            },
            Condition::And { conditions } => ConditionData::And {
                conditions: conditions_data(conditions@),
            },
            Condition::Or { conditions } => ConditionData::Or {
                conditions: conditions_data(conditions@),
            },
            Condition::Not { condition } => ConditionData::Not {
                condition: Box::new(condition.data()),
            },
            Condition::Exists { field } => ConditionData::Exists { field: field@ },
            Condition::In { field, values } => ConditionData::In {
                field: field@,
                values: values_data(values@),
            },
            Condition::Range { field, min, max, min_inclusive, max_inclusive } => ConditionData::Range {
                field: field@,
                min: opt_number(*min),
                max: opt_number(*max),
                min_inclusive: *min_inclusive,
                max_inclusive: *max_inclusive,
            },
            Condition::Expression { expression, language } => ConditionData::Expression {
                expression: expression@,
                language: language@,
            },
        }
    }
}

/// The contents of a sequence of conditions.
pub open spec fn conditions_data(s: Seq<Condition>) -> Seq<ConditionData>
    decreases s,
{
    if s.len() == 0 {
        Seq::empty()
    } else {
        conditions_data(s.subrange(0, s.len() - 1)).push(s[s.len() - 1].data())
    }
}

/// Each member of `conditions_data(s)` is the content of the member of `s` at the same place.
pub proof fn lemma_conditions_data(s: Seq<Condition>)
    ensures
        conditions_data(s).len() == s.len(),
        forall|i: int| 0 <= i < s.len() ==> #[trigger] conditions_data(s)[i] == s[i].data(),
    decreases s.len(),
{
    if s.len() > 0 {
        lemma_conditions_data(s.subrange(0, s.len() - 1));
    }
}

/// A copy of a vector of strings.
pub fn copy_strings(v: &Vec<String>) -> (r: Vec<String>)
    ensures
        r@ == v@,
{
    let mut out: Vec<String> = Vec::new();
    let mut i: usize = 0;
    while i < v.len()
        invariant
            i <= v@.len(),
            out@ == v@.subrange(0, i as int),
        decreases v@.len() - i,
    {
        out.push(v[i].clone());
        i = i + 1;
    }
    proof {
        assert(out@ =~= v@);
    }
    out
}

/// A copy of an optional string.
pub fn copy_opt_string(o: &Option<String>) -> (r: Option<String>)
    ensures
        r == *o,
{
    match o {
        Some(s) => Some(s.clone()),
        None => None,
    }
}

/// A copy of an optional JSON number.
pub fn copy_opt_number(o: &Option<JsonNumber>) -> (r: Option<JsonNumber>)
    ensures
        opt_number(r) == opt_number(*o),
{
    match o {
        Some(n) => Some(n.duplicate()),
        None => None,
    }
}

impl Condition {
    /// A copy of this condition with the same content.
    pub fn duplicate(&self) -> (r: Condition)
        ensures
            r.data() == self.data(),
        decreases self,
    {
        match self {
            Condition::Compare { field, operator, value } => Condition::Compare {
                field: field.clone(),
                operator: operator.clone(),
                value: value.duplicate(),
            },
            Condition::And { conditions } => {
                let out = Condition::duplicate_all(self, conditions);
                Condition::And { conditions: out }
            },
            Condition::Or { conditions } => {
                let out = Condition::duplicate_all(self, conditions);
                Condition::Or { conditions: out }
            },
            Condition::Not { condition } => {
                let inner = condition.duplicate();
                Condition::Not { condition: Box::new(inner) }
            },
            Condition::Exists { field } => Condition::Exists { field: field.clone() },
            Condition::In { field, values } => {
                let mut out: Vec<JsonValue> = Vec::new();
                let mut i: usize = 0;
                while i < values.len()
                    invariant
                        i <= values@.len(),
                        out@.len() == i,
                        forall|j: int| 0 <= j < i ==> #[trigger] out@[j].data() == values@[j].data(),
                    decreases values@.len() - i,
                {
                    out.push(values[i].duplicate());
                    i = i + 1;
                }
                proof {
                    lemma_values_data(out@);
                    lemma_values_data(values@);
                    assert(values_data(out@) =~= values_data(values@));
                }
                Condition::In { field: field.clone(), values: out }
            },
            Condition::Range { field, min, max, min_inclusive, max_inclusive } => Condition::Range {
                field: field.clone(),
                min: copy_opt_number(min),
                max: copy_opt_number(max),
                min_inclusive: *min_inclusive,
                max_inclusive: *max_inclusive,
            },
            Condition::Expression { expression, language } => Condition::Expression {
                expression: expression.clone(),
                language: language.clone(),
            },
        }
    }

    /// Copies the members of a conjunction or disjunction held by `parent`.
    fn duplicate_all(parent: &Condition, conditions: &Vec<Condition>) -> (r: Vec<Condition>)
        requires
            *parent == (Condition::And { conditions: *conditions }) || *parent == (Condition::Or {
                conditions: *conditions,
            }),
        ensures
            conditions_data(r@) == conditions_data(conditions@),
        decreases parent, 0nat,
    {
        let mut out: Vec<Condition> = Vec::new();
        let mut i: usize = 0;
        while i < conditions.len()
            invariant
                *parent == (Condition::And { conditions: *conditions }) || *parent == (Condition::Or {
                    conditions: *conditions,
                }),
                i <= conditions@.len(),
                out@.len() == i,
                forall|j: int| 0 <= j < i ==> #[trigger] out@[j].data() == conditions@[j].data(),
            decreases conditions@.len() - i,
        {
            proof {
                vstd::std_specs::vec::axiom_vec_index_decreases(*conditions, i as int);
                if parent is And {
                    assert(decreases_to!(*parent => parent->And_conditions));
                } else {
                    assert(decreases_to!(*parent => parent->Or_conditions));
                }
            }
            out.push(conditions[i].duplicate());
            i = i + 1;
        }
        proof {
            lemma_conditions_data(out@);
            lemma_conditions_data(conditions@);
            assert(conditions_data(out@) =~= conditions_data(conditions@));
        }
        out
    }
}

/// The content of a consequence.
pub struct ConsequenceData {
    pub decision: Decision,
    pub code: Seq<char>,
    pub message: Seq<char>,
    pub metadata: Seq<(Seq<char>, JsonData)>,
}

impl View for Consequence {
    type V = ConsequenceData;

    open spec fn view(&self) -> ConsequenceData {
        ConsequenceData {
            decision: self.decision,
            code: self.code@,
            message: self.message@,
            metadata: self.metadata.entries_view(),
        }
    }
}

impl Consequence {
    /// A copy of this consequence with the same content.
    pub fn duplicate(&self) -> (r: Consequence)
        ensures
            r@ == self@,
    {
        Consequence {
            decision: self.decision,
            code: self.code.clone(),
            message: self.message.clone(),
            metadata: self.metadata.duplicate(),
        }
    }
}

/// The content of an entity type definition.
pub struct EntityTypeData {
    pub name: Seq<char>,
    pub description: Seq<char>,
    pub schema: Seq<(Seq<char>, JsonData)>,
    pub required_fields: Seq<Seq<char>>,
}

impl View for PactEntityType {
    type V = EntityTypeData;

    open spec fn view(&self) -> EntityTypeData {
        EntityTypeData {
            name: self.name@,
            description: self.description@,
            schema: self.schema.entries_view(),
            required_fields: texts(self.required_fields@),
        }
    }
}

impl PactEntityType {
    /// A copy of this entity type with the same content.
    pub fn duplicate(&self) -> (r: PactEntityType)
        ensures
            r@ == self@,
    {
        PactEntityType {
            name: self.name.clone(),
            description: self.description.clone(),
            schema: self.schema.duplicate(),
            required_fields: copy_strings(&self.required_fields),
        }
    }
}

/// The content of a rule.
pub struct RuleData {
    pub id: Seq<char>,
    pub name: Seq<char>,
    pub description: Seq<char>,
    pub jurisdiction: Option<Seq<char>>,
    pub severity: Severity,
    pub condition: ConditionData,
    pub consequence: ConsequenceData,
    pub tags: Seq<Seq<char>>,
    pub effective_from: Option<Timestamp>,
    pub effective_to: Option<Timestamp>,
    pub metadata: Seq<(Seq<char>, JsonData)>,
}

impl View for PactRule {
    type V = RuleData;

    open spec fn view(&self) -> RuleData {
        RuleData {
            id: self.id@,
            name: self.name@,
            description: self.description@,
            jurisdiction: opt_text(self.jurisdiction),
            severity: self.severity,
            condition: self.condition.data(),
            consequence: self.consequence@,
            tags: texts(self.tags@),
            effective_from: self.effective_from,
            effective_to: self.effective_to,
            metadata: self.metadata.entries_view(),
        }
    }
}

impl PactRule {
    /// A copy of this rule with the same content.
    pub fn duplicate(&self) -> (r: PactRule)
        ensures
            r@ == self@,
    {
        PactRule {
            id: self.id.clone(),
            name: self.name.clone(),
            description: self.description.clone(),
            jurisdiction: copy_opt_string(&self.jurisdiction),
            severity: self.severity,
            condition: self.condition.duplicate(),
            consequence: self.consequence.duplicate(),
            tags: copy_strings(&self.tags),
            effective_from: self.effective_from,
            effective_to: self.effective_to,
            metadata: self.metadata.duplicate(),
        }
    }
}

/// The entries of an optional object.
pub open spec fn opt_entries(o: Option<JsonMap>) -> Option<Seq<(Seq<char>, JsonData)>> {
    match o {
        Some(m) => Some(m.entries_view()),
        None => None,
    }
}

impl PluginManifest {
    /// A copy of this manifest with the same content.
    pub fn duplicate(&self) -> (r: PluginManifest)
        ensures
            r.id == self.id,
            r.name == self.name,
            r.version == self.version,
            r.author == self.author,
            r.description == self.description,
            r.entity_types@ == self.entity_types@,
            r.event_types@ == self.event_types@,
            r.dependencies@ == self.dependencies@,
            r.pact_core_version == self.pact_core_version,
            opt_entries(r.config_schema) == opt_entries(self.config_schema),
    {
        PluginManifest {
            id: self.id.clone(),
            name: self.name.clone(),
            version: self.version.clone(),
            author: self.author.clone(),
            description: self.description.clone(),
            entity_types: copy_strings(&self.entity_types),
            event_types: copy_strings(&self.event_types),
            dependencies: copy_strings(&self.dependencies),
            pact_core_version: self.pact_core_version.clone(),
            config_schema: match &self.config_schema {
                Some(m) => Some(m.duplicate()),
                None => None,
            },
        }
    }
}

} // verus!
