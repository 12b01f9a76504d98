use vstd::prelude::*;

use crate::json::{JsonMap, JsonNumber, JsonValue};
use crate::text::{is_prefixed_short_uuid, short_random_id};
use crate::types::{
    opt_number, opt_text, texts, Condition, ConditionData, Consequence, Decision, PactRule,
    Severity, Timestamp,
};

verus! {

/// The content of an optional condition.
pub open spec fn opt_condition(o: Option<Condition>) -> Option<ConditionData> {
    match o {
        Some(c) => Some(c.data()),
        None => None,
    }
}

/// Builder for creating conditions.
pub struct ConditionBuilder {
    field: Option<String>,
    condition: Option<Condition>,
}

impl ConditionBuilder {
    /// The field path set so far.
    pub closed spec fn field_view(&self) -> Option<Seq<char>> {
        opt_text(self.field)
    }

    /// The condition built so far.
    pub closed spec fn condition_view(&self) -> Option<ConditionData> {
        opt_condition(self.condition)
    }

    /// The field path that a condition built now refers to: the one set, or
    /// the empty path.
    pub open spec fn field_or_empty(&self) -> Seq<char> {
        match self.field_view() {
            Some(f) => f,
            None => Seq::empty(),
        }
    }

    /// Creates a new ConditionBuilder.
    pub fn new() -> (r: Self)
        ensures
            r.field_view() is None,
            r.condition_view() is None,
    {
        ConditionBuilder { field: None, condition: None }
    }

    /// Sets the field path.
    pub fn field(self, path: &str) -> (r: Self)
        ensures
            r.field_view() == Some(path@),
            r.condition_view() == self.condition_view(),
    {
        ConditionBuilder { field: Some(String::from_str(path)), condition: self.condition }
    }

    /// The field path that a condition built now refers to.
    fn field_text(&self) -> (r: String)
        ensures
            r@ == self.field_or_empty(),
    {
        match &self.field {
            Some(f) => f.clone(),
            None => String::new(),
        }
    }

    /// Sets a comparison of the field with a value.
    fn compare(self, operator: &str, value: JsonValue) -> (r: Self)
        ensures
            r.field_view() == self.field_view(),
            r.condition_view() == Some(
                ConditionData::Compare {
                    field: self.field_or_empty(),
                    operator: operator@,
                    value: value.data(),
                },
            ),
    {
        let field = self.field_text();
        let c = Condition::Compare { field, operator: String::from_str(operator), value };
        ConditionBuilder { field: self.field, condition: Some(c) }
    }

    /// Creates an equality comparison.
    pub fn eq(self, value: JsonValue) -> (r: Self)
        ensures
            r.field_view() == self.field_view(),
            r.condition_view() == Some(
                ConditionData::Compare { field: self.field_or_empty(), operator: "eq"@, value: value.data() },
            ),
    {
        self.compare("eq", value)
    }

    /// Creates a not-equal comparison.
    pub fn ne(self, value: JsonValue) -> (r: Self)
        ensures
            r.field_view() == self.field_view(),
            r.condition_view() == Some(
                ConditionData::Compare { field: self.field_or_empty(), operator: "ne"@, value: value.data() },
            ),
    {
        self.compare("ne", value)
    }

    /// Creates a greater-than comparison.
    pub fn gt(self, value: JsonValue) -> (r: Self)
        ensures
            r.field_view() == self.field_view(),
            r.condition_view() == Some(
                ConditionData::Compare { field: self.field_or_empty(), operator: "gt"@, value: value.data() },
            ),
    {
        self.compare("gt", value)
    }

    /// Creates a greater-than-or-equal comparison.
    pub fn gte(self, value: JsonValue) -> (r: Self)
        ensures
            r.field_view() == self.field_view(),
            r.condition_view() == Some(
                ConditionData::Compare { field: self.field_or_empty(), operator: "gte"@, value: value.data() },
            ),
    {
        self.compare("gte", value)
    }

    /// Creates a less-than comparison.
    pub fn lt(self, value: JsonValue) -> (r: Self)
        ensures
            r.field_view() == self.field_view(),
            r.condition_view() == Some(
                ConditionData::Compare { field: self.field_or_empty(), operator: "lt"@, value: value.data() },
            ),
    {
        self.compare("lt", value)
    }

    /// Creates a less-than-or-equal comparison.
    pub fn lte(self, value: JsonValue) -> (r: Self)
        ensures
            r.field_view() == self.field_view(),
            r.condition_view() == Some(
                ConditionData::Compare { field: self.field_or_empty(), operator: "lte"@, value: value.data() },
            ),
    {
        self.compare("lte", value)
    }

    /// Creates a contains comparison.
    pub fn contains(self, value: &str) -> (r: Self)
        ensures
            r.field_view() == self.field_view(),
            r.condition_view() == Some(
                ConditionData::Compare {
                    field: self.field_or_empty(),
                    operator: "contains"@,
                    value: crate::json::JsonData::Str(value@),
                },
            ),
    {
        self.compare("contains", JsonValue::String(String::from_str(value)))
    }

    /// Creates a regex match comparison.
    pub fn matches(self, pattern: &str) -> (r: Self)
        ensures
            r.field_view() == self.field_view(),
            r.condition_view() == Some(
                ConditionData::Compare {
                    field: self.field_or_empty(),
                    operator: "regex"@,
                    value: crate::json::JsonData::Str(pattern@),
                },
            ),
    {
        self.compare("regex", JsonValue::String(String::from_str(pattern)))
    }

    /// Creates an exists condition.
    pub fn field_exists(self) -> (r: Self)
        ensures
            r.field_view() == self.field_view(),
            r.condition_view() == Some(ConditionData::Exists { field: self.field_or_empty() }),
    {
        let field = self.field_text();
        ConditionBuilder { field: self.field, condition: Some(Condition::Exists { field }) }
    }

    /// Creates an in-set condition.
    pub fn in_values(self, values: Vec<JsonValue>) -> (r: Self)
        ensures
            r.field_view() == self.field_view(),
            r.condition_view() == Some(
                ConditionData::In { field: self.field_or_empty(), values: crate::json::values_data(values@) },
            ),
    {
        let field = self.field_text();
        ConditionBuilder { field: self.field, condition: Some(Condition::In { field, values }) }
    }

    /// Creates a range condition, inclusive at both ends.
    pub fn between(self, min: Option<JsonNumber>, max: Option<JsonNumber>) -> (r: Self)
        ensures
            r.field_view() == self.field_view(),
            r.condition_view() == Some(
                ConditionData::Range {
                    field: self.field_or_empty(),
                    min: opt_number(min),
                    max: opt_number(max),
                    min_inclusive: true,
                    max_inclusive: true,
                },
            ),
    {
        let field = self.field_text();
        ConditionBuilder {
            field: self.field,
            condition: Some(Condition::Range { field, min, max, min_inclusive: true, max_inclusive: true }),
        }
    }

    /// Creates an expression condition; the language is `cel` unless given.
    pub fn expression(self, expr: &str, language: Option<&str>) -> (r: Self)
        ensures
            r.field_view() == self.field_view(),
            r.condition_view() == Some(
                ConditionData::Expression {
                    expression: expr@,
                    language: match language {
                        Some(l) => l@,
                        None => "cel"@,
                    },
                },
            ),
    {
        let lang = match language {
            Some(l) => String::from_str(l),
            None => String::from_str("cel"),
        };
        ConditionBuilder {
            field: self.field,
            condition: Some(Condition::Expression { expression: String::from_str(expr), language: lang }),
        }
    }

    /// Builds and returns the condition.
    pub fn build(self) -> (r: Option<Condition>)
        ensures
            opt_condition(r) == self.condition_view(),
    {
        self.condition
    }
}

impl Default for ConditionBuilder {
    fn default() -> (r: Self)
        ensures
            r.field_view() is None,
            r.condition_view() is None,
    {
        Self::new()
    }
}

/// Creates an AND condition from multiple conditions.
pub fn and(conditions: Vec<Condition>) -> (r: Condition)
    ensures
        r == (Condition::And { conditions }),
{
    Condition::And { conditions }
}

/// Creates an OR condition from multiple conditions.
pub fn or(conditions: Vec<Condition>) -> (r: Condition)
    ensures
        r == (Condition::Or { conditions }),
{
    Condition::Or { conditions }
}

/// Creates a NOT condition.
pub fn not(condition: Condition) -> (r: Condition)
    ensures
        r == (Condition::Not { condition: Box::new(condition) }),
{
    Condition::Not { condition: Box::new(condition) }
}

/// Creates a new condition builder.
pub fn condition() -> (r: ConditionBuilder)
    ensures
        r.field_view() is None,
        r.condition_view() is None,
{
    ConditionBuilder::new()
}


/// The content of an optional consequence.
pub open spec fn opt_consequence(o: Option<Consequence>) -> Option<crate::types::ConsequenceData> {
    match o {
        Some(c) => Some(c@),
        None => None,
    }
}

/// Builder for creating rules.
pub struct RuleBuilder {
    id: Option<String>,
    name: Option<String>,
    description: Option<String>,
    jurisdiction: Option<String>,
    severity: Severity,
    condition: Option<Condition>,
    consequence: Option<Consequence>,
    tags: Vec<String>,
    effective_from: Option<Timestamp>,
    effective_to: Option<Timestamp>,
    metadata: JsonMap,
}

/// What a rule builder holds.
pub struct RuleDraft {
    pub id: Option<Seq<char>>,
    pub name: Option<Seq<char>>,
    pub description: Option<Seq<char>>,
    pub jurisdiction: Option<Seq<char>>,
    pub severity: Severity,
    pub condition: Option<ConditionData>,
    pub consequence: Option<crate::types::ConsequenceData>,
    pub tags: Seq<Seq<char>>,
    pub effective_from: Option<Timestamp>,
    pub effective_to: Option<Timestamp>,
    pub metadata: Map<Seq<char>, crate::json::JsonData>,
    pub metadata_entries: Seq<(Seq<char>, crate::json::JsonData)>,
}

impl View for RuleBuilder {
    type V = RuleDraft;

    closed spec fn view(&self) -> RuleDraft {
        RuleDraft {
            id: opt_text(self.id),
            name: opt_text(self.name),
            description: opt_text(self.description),
            jurisdiction: opt_text(self.jurisdiction),
            severity: self.severity,
            condition: opt_condition(self.condition),
            consequence: opt_consequence(self.consequence),
            tags: texts(self.tags@),
            effective_from: self.effective_from,
            effective_to: self.effective_to,
            metadata: self.metadata@,
            metadata_entries: self.metadata.entries_view(),
        }
    }
}

/// The draft of a new rule builder.
pub open spec fn empty_draft() -> RuleDraft {
    RuleDraft {
        id: None,
        name: None,
        description: None,
        jurisdiction: None,
        severity: Severity::Medium,
        condition: None,
        consequence: None,
        tags: Seq::empty(),
        effective_from: None,
        effective_to: None,
        metadata: Map::empty(),
        metadata_entries: Seq::empty(),
    }
}

/// The consequence with the given decision, code and message and no metadata.
pub open spec fn simple_consequence(decision: Decision, code: Seq<char>, message: Seq<char>) -> crate::types::ConsequenceData {
    crate::types::ConsequenceData { decision, code, message, metadata: Seq::empty() }
}

impl RuleBuilder {
    /// Creates a new RuleBuilder.
    pub fn new() -> (r: Self)
        ensures
            r@ == empty_draft(),
    {
        let r = RuleBuilder {
            id: None,
            name: None,
            description: None,
            jurisdiction: None,
            severity: Severity::Medium,
            condition: None,
            consequence: None,
            tags: Vec::new(),
            effective_from: None,
            effective_to: None,
            metadata: JsonMap::new(),
        };
        proof {
            assert(texts(r.tags@) =~= Seq::<Seq<char>>::empty());
        }
        r
    }

    /// Sets the rule ID.
    pub fn id(self, id: &str) -> (r: Self)
        ensures
            r@ == (RuleDraft { id: Some(id@), ..self@ }),
    {
        RuleBuilder { id: Some(String::from_str(id)), ..self }
    }

    /// Sets the rule name.
    pub fn name(self, name: &str) -> (r: Self)
        ensures
            r@ == (RuleDraft { name: Some(name@), ..self@ }),
    {
        RuleBuilder { name: Some(String::from_str(name)), ..self }
    }

    /// Sets the rule description.
    pub fn description(self, desc: &str) -> (r: Self)
        ensures
            r@ == (RuleDraft { description: Some(desc@), ..self@ }),
    {
        RuleBuilder { description: Some(String::from_str(desc)), ..self }
    }

    /// Sets the jurisdiction.
    pub fn jurisdiction(self, jurisdiction: &str) -> (r: Self)
        ensures
            r@ == (RuleDraft { jurisdiction: Some(jurisdiction@), ..self@ }),
    {
        RuleBuilder { jurisdiction: Some(String::from_str(jurisdiction)), ..self }
    }

    /// Sets the severity.
    pub fn severity(self, severity: Severity) -> (r: Self)
        ensures
            r@ == (RuleDraft { severity, ..self@ }),
    {
        RuleBuilder { severity, ..self }
    }

    /// Sets the condition.
    pub fn when(self, condition: Condition) -> (r: Self)
        ensures
            r@ == (RuleDraft { condition: Some(condition.data()), ..self@ }),
    {
        RuleBuilder { condition: Some(condition), ..self }
    }

    /// Sets a simple field comparison condition.
    pub fn when_field(self, field: &str, operator: &str, value: JsonValue) -> (r: Self)
        ensures
            r@ == (RuleDraft {
                condition: Some(ConditionData::Compare { field: field@, operator: operator@, value: value.data() }),
                ..self@
            }),
    {
        let c = Condition::Compare {
            field: String::from_str(field),
            operator: String::from_str(operator),
            value,
        };
        RuleBuilder { condition: Some(c), ..self }
    }

    /// Sets a consequence with no metadata.
    fn with_consequence(self, decision: Decision, code: &str, message: &str) -> (r: Self)
        ensures
            r@ == (RuleDraft { consequence: Some(simple_consequence(decision, code@, message@)), ..self@ }),
    {
        let c = Consequence {
            decision,
            code: String::from_str(code),
            message: String::from_str(message),
            metadata: JsonMap::new(),
        };
        RuleBuilder { consequence: Some(c), ..self }
    }

    /// Sets a DENY consequence.
    pub fn then_deny(self, code: &str, message: &str) -> (r: Self)
        ensures
            r@ == (RuleDraft { consequence: Some(simple_consequence(Decision::Deny, code@, message@)), ..self@ }),
    {
        self.with_consequence(Decision::Deny, code, message)
    }

    /// Sets a FLAG consequence.
    pub fn then_flag(self, code: &str, message: &str) -> (r: Self)
        ensures
            r@ == (RuleDraft { consequence: Some(simple_consequence(Decision::Flag, code@, message@)), ..self@ }),
    {
        self.with_consequence(Decision::Flag, code, message)
    }

    /// Sets an ALLOW consequence.
    pub fn then_allow(self, code: &str, message: &str) -> (r: Self)
        ensures
            r@ == (RuleDraft { consequence: Some(simple_consequence(Decision::Allow, code@, message@)), ..self@ }),
    {
        self.with_consequence(Decision::Allow, code, message)
    }

    /// Adds tags, after those already added.
    pub fn tags(self, tags: Vec<&str>) -> (r: Self)
        ensures
            r@ == (RuleDraft { tags: self@.tags + tags@.map_values(|t: &str| t@), ..self@ }),
    {
        let mut all = self.tags;
        let ghost start = all@;
        let mut i: usize = 0;
        while i < tags.len()
            invariant
                i <= tags@.len(),
                texts(all@) == texts(start) + tags@.take(i as int).map_values(|t: &str| t@),
            decreases tags@.len() - i,
        {
            let ghost prev = all@;
            all.push(String::from_str(tags[i]));
            proof {
                assert(tags@.take(i + 1) =~= tags@.take(i as int).push(tags@[i as int]));
                assert(texts(all@) =~= texts(prev).push(tags@[i as int]@));
                assert(texts(all@) =~= texts(start) + tags@.take(i + 1).map_values(|t: &str| t@));
            }
            i = i + 1;
        }
        proof {
            assert(tags@.take(tags@.len() as int) =~= tags@);
        }
        RuleBuilder { tags: all, ..self }
    }

    /// Sets the effective start date.
    pub fn effective_from(self, date: Timestamp) -> (r: Self)
        ensures
            r@ == (RuleDraft { effective_from: Some(date), ..self@ }),
    {
        RuleBuilder { effective_from: Some(date), ..self }
    }

    /// Sets the effective end date.
    pub fn effective_to(self, date: Timestamp) -> (r: Self)
        ensures
            r@ == (RuleDraft { effective_to: Some(date), ..self@ }),
    {
        RuleBuilder { effective_to: Some(date), ..self }
    }

    /// Adds metadata under a key, replacing any value already held there.
    pub fn metadata(self, key: &str, value: JsonValue) -> (r: Self)
        ensures
            r@.metadata == self@.metadata.insert(key@, value.data()),
            r@ == (RuleDraft { metadata: r@.metadata, metadata_entries: r@.metadata_entries, ..self@ }),
    {
        let mut m = self.metadata;
        m.insert(String::from_str(key), value);
        RuleBuilder { metadata: m, ..self }
    }

    /// Builds and returns the rule. The name, the condition and the
    /// consequence are required, checked in that order; the description
    /// defaults to the name and the id to `rule_` followed by the first twelve
    /// characters of a fresh random UUID.
    pub fn build(self) -> (r: Result<PactRule, &'static str>)
        ensures
            self@.name is None ==> r is Err && r->Err_0@ == "Rule name is required"@,
            self@.name is Some && self@.condition is None ==> r is Err && r->Err_0@ == "Rule condition is required"@,
            self@.name is Some && self@.condition is Some && self@.consequence is None ==> r is Err
                && r->Err_0@ == "Rule consequence is required"@,
            self@.name is Some && self@.condition is Some && self@.consequence is Some <==> r is Ok,
            r matches Ok(rule) ==> {
                &&& match self@.id {
                    Some(id) => rule.id@ == id,
                    None => is_prefixed_short_uuid(rule.id@, "rule_"@),
                }
                &&& Some(rule.name@) == self@.name
                &&& rule.description@ == match self@.description {
                    Some(d) => d,
                    None => rule.name@,
                }
                &&& opt_text(rule.jurisdiction) == self@.jurisdiction
                &&& rule.severity == self@.severity
                &&& Some(rule.condition.data()) == self@.condition
                &&& Some(rule.consequence@) == self@.consequence
                &&& texts(rule.tags@) == self@.tags
                &&& rule.effective_from == self@.effective_from
                &&& rule.effective_to == self@.effective_to
                &&& rule.metadata@ == self@.metadata
                &&& rule.metadata.entries_view() == self@.metadata_entries
            },
    {
        let name = match self.name {
            Some(n) => n,
            None => {
                return Err("Rule name is required");
            },
        };
        let condition = match self.condition {
            Some(c) => c,
            None => {
                return Err("Rule condition is required");
            },
        };
        let consequence = match self.consequence {
            Some(c) => c,
            None => {
                return Err("Rule consequence is required");
            },
        };
        let id = match self.id {
            Some(id) => id,
            None => short_random_id("rule_"),
        };
        let description = match self.description {
            Some(d) => d,
            None => name.clone(),
        };
        Ok(PactRule {
            id,
            name,
            description,
            jurisdiction: self.jurisdiction,
            severity: self.severity,
            condition,
            consequence,
            tags: self.tags,
            effective_from: self.effective_from,
            effective_to: self.effective_to,
            metadata: self.metadata,
        })
    }
}

impl Default for RuleBuilder {
    fn default() -> (r: Self)
        ensures
            r@ == empty_draft(),
    {
        Self::new()
    }
}

/// Creates a new rule builder.
pub fn rule() -> (r: RuleBuilder)
    ensures
        r@ == empty_draft(),
{
    RuleBuilder::new()
}

} // verus!
