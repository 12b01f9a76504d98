use vstd::prelude::*;

use crate::json::{canonical, canonical_json, JsonData, JsonMap, JsonValue};
use crate::sys::{json_from_slice, json_parsed};
use crate::text::{is_prefixed_short_uuid, short_random_id, string_eq_str};
use crate::types::{
    opt_text, texts, Condition, Consequence, DomainEvent, PactEntityType, PactEvent, PactRule,
    PluginManifest, Severity, Timestamp, ValidationError, ValidationResult,
};

verus! {

/// Plugin lifecycle hooks: what to run when the plugin is loaded and unloaded.
pub struct PluginHooks<F> {
    pub on_load: Option<F>,
    pub on_unload: Option<F>,
}

impl<F> Default for PluginHooks<F> {
    fn default() -> (r: Self)
        ensures
            r.on_load is None,
            r.on_unload is None,
    {
        PluginHooks { on_load: None, on_unload: None }
    }
}

/// The lowercase form of a string, as `str::to_lowercase` computes it.
pub uninterp spec fn lowercase(s: Seq<char>) -> Seq<char>;

/// The uppercase form of a character, as `char::to_uppercase` computes it.
pub uninterp spec fn uppercase(c: char) -> Seq<char>;

/// `str::to_lowercase`: the lowercase form of every character, by the Unicode
/// tables of the standard library. The mapping itself is only named; what is
/// claimed besides is what std documents: each character lowercases to one
/// or more characters (`char::to_lowercase`), so the result is empty exactly
/// when the string is.
#[verifier::external_body]
fn to_lowercase(s: &str) -> (r: String)
    ensures
        r@ == lowercase(s@),
        r@.len() == 0 <==> s@.len() == 0,
{
    s.to_lowercase()
}

/// `char::to_uppercase`, collected into a string: the uppercase form of a
/// character, by the Unicode tables of the standard library. The mapping is
/// only named; std documents that it yields one or more characters.
#[verifier::external_body]
fn char_to_uppercase(c: char) -> (r: String)
    ensures
        r@ == uppercase(c),
        r@.len() >= 1,
{
    c.to_uppercase().collect::<String>()
}

/// The characters of `s` before the first `c`.
pub open spec fn before_char(s: Seq<char>, c: char) -> Seq<char>
    decreases s.len(),
{
    if s.len() == 0 || s[0] == c {
        Seq::empty()
    } else {
        seq![s[0]] + before_char(s.drop_first(), c)
    }
}

/// The entity type that an event type names: the part before the first
/// underscore, in lowercase with its first character in uppercase. None when
/// the event type has no underscore or that part is empty.
pub open spec fn inferred_entity_type(event_type: Seq<char>) -> Option<Seq<char>> {
    if event_type.contains('_') && before_char(event_type, '_').len() > 0 {
        capitalized(lowercase(before_char(event_type, '_')))
    } else {
        None
    }
}

/// A lowercased word with its first character in uppercase; none for the
/// empty word.
pub open spec fn capitalized(lower: Seq<char>) -> Option<Seq<char>> {
    if lower.len() > 0 {
        Some(uppercase(lower[0]) + lower.drop_first())
    } else {
        None
    }
}

/// The characters before the first `c` are exactly the prefix up to the
/// place of that first `c`.
pub proof fn lemma_before_first(s: Seq<char>, c: char, i: int)
    requires
        0 <= i < s.len(),
        s[i] == c,
        forall|j: int| 0 <= j < i ==> s[j] != c,
    ensures
        before_char(s, c) == s.take(i),
    decreases i,
{
    if i > 0 {
        let rest = s.drop_first();
        assert forall|j: int| 0 <= j < i - 1 implies rest[j] != c by {
            assert(rest[j] == s[j + 1]);
        }
        assert(s[0] != c);
        lemma_before_first(rest, c, i - 1);
        assert(seq![s[0]] + rest.take(i - 1) =~= s.take(i));
    } else {
        assert(s.take(0) =~= Seq::<char>::empty());
    }
}

/// The entity type that an event type names: none without an underscore or
/// when the first underscore comes first; else the whole part before the
/// first underscore, lowercased, with the first character of that in
/// uppercase and every other character kept.
pub proof fn law_inferred_entity_type(event_type: Seq<char>, i: int)
    ensures
        !event_type.contains('_') ==> inferred_entity_type(event_type) is None,
        0 <= i < event_type.len() && event_type[i] == '_' && (forall|j: int| 0 <= j < i ==> event_type[j] != '_') ==> {
            let l = lowercase(event_type.take(i));
            &&& i == 0 ==> inferred_entity_type(event_type) is None
            &&& i > 0 && l.len() > 0 ==> inferred_entity_type(event_type) == Some(uppercase(l[0]) + l.subrange(1, l.len() as int))
            &&& i > 0 && l.len() > 0 ==> inferred_entity_type(event_type).unwrap().len() == uppercase(l[0]).len() + l.len() - 1
        },
{
    if 0 <= i < event_type.len() && event_type[i] == '_' && (forall|j: int| 0 <= j < i ==> event_type[j] != '_') {
        lemma_before_first(event_type, '_', i);
        assert(event_type.contains('_'));
        let l = lowercase(event_type.take(i));
        assert(l.drop_first() =~= l.subrange(1, l.len() as int));
    }
}

/// The place of the first `c` in `s`, if any.
fn find_char(s: &str, c: char) -> (r: Option<usize>)
    ensures
        r is Some <==> s@.contains(c),
        r matches Some(i) ==> i < s@.len() && s@.take(i as int) == before_char(s@, c),
{
    let n = s.unicode_len();
    let mut i: usize = 0;
    proof {
        assert(s@.skip(0) =~= s@);
        assert(s@.take(0) + before_char(s@, c) =~= before_char(s@, c));
    }
    while i < n
        invariant
            n == s@.len(),
            i <= n,
            forall|j: int| 0 <= j < i ==> s@[j] != c,
            before_char(s@, c) == s@.take(i as int) + before_char(s@.skip(i as int), c),
        decreases n - i,
    {
        let ch = s.get_char(i);
        if ch == c {
            proof {
                assert(s@.skip(i as int)[0] == c);
                assert(before_char(s@.skip(i as int), c) == Seq::<char>::empty());
                assert(s@.take(i as int) + Seq::<char>::empty() =~= s@.take(i as int));
            }
            return Some(i);
        }
        proof {
            let rest = s@.skip(i as int);
            assert(rest[0] == ch);
            assert(rest.drop_first() =~= s@.skip(i + 1));
            assert(before_char(rest, c) == seq![ch] + before_char(s@.skip(i + 1), c));
            assert(s@.take(i + 1) =~= s@.take(i as int) + seq![ch]);
        }
        i = i + 1;
    }
    proof {
        if s@.contains(c) {
            let j = choose|j: int| 0 <= j < s@.len() && s@[j] == c;
            assert(s@[j] != c);
        }
    }
    None
}

/// The entity type that an event type names (see `inferred_entity_type`).
pub fn infer_entity_type(event_type: &str) -> (r: Option<String>)
    ensures
        opt_text(r) == inferred_entity_type(event_type@),
{
    match find_char(event_type, '_') {
        None => None,
        Some(i) => {
            let head = event_type.substring_char(0, i);
            if head.unicode_len() == 0 {
                None
            } else {
                let lower = to_lowercase(head);
                capitalize(lower.as_str())
            }
        },
    }
}

/// A lowercased word with its first character in uppercase (see
/// `capitalized`).
pub fn capitalize(lower: &str) -> (r: Option<String>)
    ensures
        opt_text(r) == capitalized(lower@),
{
    let n = lower.unicode_len();
    if n == 0 {
        None
    } else {
        let first = lower.get_char(0);
        let mut out = char_to_uppercase(first);
        out.append(lower.substring_char(1, n));
        proof {
            assert(lower@.subrange(1, n as int) =~= lower@.drop_first());
        }
        Some(out)
    }
}


/// The field, message and code of a validation error.
pub open spec fn error_view(e: ValidationError) -> (Seq<char>, Seq<char>, Seq<char>) {
    (e.field@, e.message@, e.code@)
}

/// The error that reports a missing required field.
pub open spec fn missing_field_error(f: Seq<char>) -> (Seq<char>, Seq<char>, Seq<char>) {
    (f, "Required field '"@ + f + "' is missing"@, "REQUIRED_FIELD_MISSING"@)
}

/// The errors for the required fields that `data` lacks, in the order of `fields`.
pub open spec fn missing_field_errors(fields: Seq<Seq<char>>, data: Map<Seq<char>, JsonData>) -> Seq<(Seq<char>, Seq<char>, Seq<char>)> {
    fields.filter(|f: Seq<char>| !data.dom().contains(f)).map_values(|f: Seq<char>| missing_field_error(f))
}

/// The first entity type definition with the given name, if any.
pub open spec fn find_entity_type(types: Seq<PactEntityType>, name: Seq<char>) -> Option<PactEntityType>
    decreases types.len(),
{
    if types.len() == 0 {
        None
    } else if types[0].name@ == name {
        Some(types[0])
    } else {
        find_entity_type(types.drop_first(), name)
    }
}

/// Looking up an entity type by name finds one exactly when some definition
/// has that name, and then it is the first definition with that name.
pub proof fn law_find_entity_type(types: Seq<PactEntityType>, name: Seq<char>)
    ensures
        find_entity_type(types, name) is Some <==> exists|i: int| 0 <= i < types.len() && (#[trigger] types[i]).name@ == name,
        find_entity_type(types, name) matches Some(t) ==> exists|i: int|
            0 <= i < types.len() && #[trigger] types[i] == t && t.name@ == name && forall|j: int|
                0 <= j < i ==> (#[trigger] types[j]).name@ != name,
    decreases types.len(),
{
    if types.len() > 0 {
        let rest = types.drop_first();
        law_find_entity_type(rest, name);
        assert forall|i: int| 0 <= i < rest.len() implies #[trigger] rest[i] == types[i + 1] by {}
        if types[0].name@ == name {
            assert(types[0].name@ == name);
        } else {
            if exists|i: int| 0 <= i < types.len() && (#[trigger] types[i]).name@ == name {
                let i = choose|i: int| 0 <= i < types.len() && (#[trigger] types[i]).name@ == name;
                assert(i > 0);
                assert(rest[i - 1].name@ == name);
            }
            if exists|i: int| 0 <= i < rest.len() && (#[trigger] rest[i]).name@ == name {
                let i = choose|i: int| 0 <= i < rest.len() && (#[trigger] rest[i]).name@ == name;
                assert(types[i + 1].name@ == name);
            }
            if find_entity_type(types, name) is Some {
                let t = find_entity_type(types, name)->0;
                let i = choose|i: int|
                    0 <= i < rest.len() && #[trigger] rest[i] == t && t.name@ == name && forall|j: int|
                        0 <= j < i ==> (#[trigger] rest[j]).name@ != name;
                assert(types[i + 1] == t);
                assert forall|j: int| 0 <= j < i + 1 implies (#[trigger] types[j]).name@ != name by {
                    if j > 0 {
                        assert(rest[j - 1] == types[j]);
                    }
                }
            }
        }
    }
}

/// The errors that validating `data` as an entity of type `entity_type` reports.
pub open spec fn validation_errors(types: Seq<PactEntityType>, entity_type: Seq<char>, data: Map<Seq<char>, JsonData>) -> Seq<(Seq<char>, Seq<char>, Seq<char>)> {
    match find_entity_type(types, entity_type) {
        None => seq![("entity_type"@, "Unknown entity type: "@ + entity_type, "UNKNOWN_ENTITY_TYPE"@)],
        Some(et) => missing_field_errors(texts(et.required_fields@), data),
    }
}

/// Base plugin implementation.
pub struct BasePlugin<F> {
    manifest: PluginManifest,
    entity_types: Vec<PactEntityType>,
    default_rules: Vec<PactRule>,
    hooks: Option<PluginHooks<F>>,
}

impl<F> BasePlugin<F> {
    /// The manifest.
    pub closed spec fn spec_manifest(&self) -> PluginManifest {
        self.manifest
    }

    /// The entity types defined by this plugin.
    pub closed spec fn spec_entity_types(&self) -> Seq<PactEntityType> {
        self.entity_types@
    }

    /// The default rules for this domain.
    pub closed spec fn spec_default_rules(&self) -> Seq<PactRule> {
        self.default_rules@
    }

    /// The lifecycle hooks.
    pub closed spec fn spec_hooks(&self) -> Option<PluginHooks<F>> {
        self.hooks
    }

    /// Creates a new BasePlugin, without hooks.
    pub fn new(manifest: PluginManifest, entity_types: Vec<PactEntityType>, default_rules: Vec<PactRule>) -> (r: Self)
        ensures
            r.spec_manifest() == manifest,
            r.spec_entity_types() == entity_types@,
            r.spec_default_rules() == default_rules@,
            r.spec_hooks() is None,
    {
        BasePlugin { manifest, entity_types, default_rules, hooks: None }
    }

    /// Sets the plugin hooks.
    pub fn with_hooks(self, hooks: PluginHooks<F>) -> (r: Self)
        ensures
            r.spec_manifest() == self.spec_manifest(),
            r.spec_entity_types() == self.spec_entity_types(),
            r.spec_default_rules() == self.spec_default_rules(),
            r.spec_hooks() == Some(hooks),
    {
        BasePlugin { hooks: Some(hooks), ..self }
    }

    /// Returns the plugin manifest.
    pub fn manifest(&self) -> (r: &PluginManifest)
        ensures
            *r == self.spec_manifest(),
    {
        &self.manifest
    }

    /// Returns the plugin hooks.
    pub fn hooks(&self) -> (r: Option<&PluginHooks<F>>)
        ensures
            r is Some <==> self.spec_hooks() is Some,
            r matches Some(h) ==> self.spec_hooks() == Some(*h),
    {
        match &self.hooks {
            Some(h) => Some(h),
            None => None,
        }
    }

    /// Returns entity types defined by this plugin.
    pub fn get_entity_types(&self) -> (r: &[PactEntityType])
        ensures
            r@ == self.spec_entity_types(),
    {
        self.entity_types.as_slice()
    }

    /// Returns default rules for this domain.
    pub fn get_default_rules(&self) -> (r: &[PactRule])
        ensures
            r@ == self.spec_default_rules(),
    {
        self.default_rules.as_slice()
    }

    /// Converts a domain event to canonical format with the given id and
    /// receipt time: the plugin id as source, the event's fields, the entity
    /// type that the event type names, and the receipt time as occurrence
    /// time when the event gives none.
    pub fn canonical_event(&self, event: &DomainEvent, id: String, received_at: Timestamp) -> (r: PactEvent)
        ensures
            r.id == id,
            r.source@ == self.spec_manifest().id@,
            r.event_type@ == event.event_type@,
            r.entity_id == event.entity_id,
            opt_text(r.entity_type) == inferred_entity_type(event.event_type@),
            r.jurisdiction == event.jurisdiction,
            r.payload.entries_view() == event.payload.entries_view(),
            r.occurred_at == match event.occurred_at {
                Some(t) => t,
                None => received_at,
            },
            r.received_at == received_at,
            r.metadata.entries_view() == event.metadata.entries_view(),
    {
        let occurred_at = match event.occurred_at {
            Some(t) => t,
            None => received_at,
        };
        PactEvent {
            id,
            source: self.manifest.id.clone(),
            event_type: event.event_type.clone(),
            entity_id: crate::types::copy_opt_string(&event.entity_id),
            entity_type: infer_entity_type(event.event_type.as_str()),
            jurisdiction: crate::types::copy_opt_string(&event.jurisdiction),
            payload: event.payload.duplicate(),
            occurred_at,
            received_at,
            metadata: event.metadata.duplicate(),
        }
    }

    /// Converts a domain event to canonical format (see `canonical_event`)
    /// with a fresh `evt_` id and the time of conversion as receipt time.
    pub fn map_to_canonical_event(&self, event: &DomainEvent) -> (r: PactEvent)
        ensures
            is_prefixed_short_uuid(r.id@, "evt_"@),
            r.source@ == self.spec_manifest().id@,
            r.event_type@ == event.event_type@,
            r.entity_id == event.entity_id,
            opt_text(r.entity_type) == inferred_entity_type(event.event_type@),
            r.jurisdiction == event.jurisdiction,
            r.payload.entries_view() == event.payload.entries_view(),
            r.occurred_at == match event.occurred_at {
                Some(t) => t,
                None => r.received_at,
            },
            r.metadata.entries_view() == event.metadata.entries_view(),
    {
        let now = crate::sys::now();
        self.canonical_event(event, short_random_id("evt_"), now)
    }

    /// Validates domain-specific data against the first entity type with the
    /// given name: one error for an unknown entity type, else one error per
    /// missing required field, in order; valid when there is none.
    pub fn validate_domain_data(&self, entity_type: &str, data: &JsonMap) -> (r: ValidationResult)
        ensures
            r.errors@.map_values(|e: ValidationError| error_view(e)) == validation_errors(self.spec_entity_types(), entity_type@, data@),
            r.valid <==> r.errors@.len() == 0,
            r.warnings@.len() == 0,
    {
        let ghost types = self.entity_types@;
        let mut i: usize = 0;
        proof {
            assert(types.skip(0) =~= types);
        }
        while i < self.entity_types.len()
            invariant
                types == self.entity_types@,
                i <= types.len(),
                find_entity_type(types, entity_type@) == find_entity_type(types.skip(i as int), entity_type@),
            decreases types.len() - i,
        {
            proof {
                assert(types.skip(i as int)[0] == types[i as int]);
                assert(types.skip(i as int).drop_first() =~= types.skip(i + 1));
            }
            if string_eq_str(&self.entity_types[i].name, entity_type) {
                let r = validate_required_fields(&self.entity_types[i].required_fields, data);
                return r;
            }
            i = i + 1;
        }
        let mut message = String::from_str("Unknown entity type: ");
        message.append(entity_type);
        let mut errors: Vec<ValidationError> = Vec::new();
        errors.push(ValidationError {
            field: String::from_str("entity_type"),
            message,
            code: String::from_str("UNKNOWN_ENTITY_TYPE"),
        });
        proof {
            assert(errors@.map_values(|e: ValidationError| error_view(e)) =~= validation_errors(types, entity_type@, data@));
        }
        ValidationResult::failure(errors)
    }

    /// Creates a rule ID: `rule_` followed by the first twelve characters of a
    /// fresh random UUID.
    pub fn create_rule_id(&self) -> (r: String)
        ensures
            is_prefixed_short_uuid(r@, "rule_"@),
    {
        short_random_id("rule_")
    }

    /// Creates a rule with plugin defaults and the given id: the name as
    /// description, medium severity, the plugin id as its only tag, and the
    /// plugin id and version as metadata.
    pub fn create_rule_with_id(&self, id: String, name: &str, condition: Condition, consequence: Consequence) -> (r: PactRule)
        ensures
            r.id == id,
            r.name@ == name@,
            r.description@ == name@,
            r.jurisdiction is None,
            r.severity == Severity::Medium,
            r.condition == condition,
            r.consequence == consequence,
            texts(r.tags@) == seq![self.spec_manifest().id@],
            r.effective_from is None,
            r.effective_to is None,
            r.metadata.entries_view() == seq![
                ("plugin_id"@, JsonData::Str(self.spec_manifest().id@)),
                ("plugin_version"@, JsonData::Str(self.spec_manifest().version@)),
            ],
    {
        let mut metadata = JsonMap::new();
        metadata.insert(String::from_str("plugin_id"), JsonValue::String(self.manifest.id.clone()));
        proof {
            reveal_strlit("plugin_id");
            reveal_strlit("plugin_version");
            assert("plugin_id"@.len() != "plugin_version"@.len());
            assert(!metadata@.dom().contains("plugin_version"@));
        }
        metadata.insert(String::from_str("plugin_version"), JsonValue::String(self.manifest.version.clone()));
        let mut tags: Vec<String> = Vec::new();
        tags.push(self.manifest.id.clone());
        proof {
            assert(texts(tags@) =~= seq![self.manifest.id@]);
            assert(metadata.entries_view() =~= seq![
                ("plugin_id"@, JsonData::Str(self.manifest.id@)),
                ("plugin_version"@, JsonData::Str(self.manifest.version@)),
            ]);
        }
        PactRule {
            id,
            name: String::from_str(name),
            description: String::from_str(name),
            jurisdiction: None,
            severity: Severity::Medium,
            condition,
            consequence,
            tags,
            effective_from: None,
            effective_to: None,
            metadata,
        }
    }

    /// Creates a rule with plugin defaults (see `create_rule_with_id`) and a
    /// fresh id from `create_rule_id`.
    pub fn create_rule(&self, name: &str, condition: Condition, consequence: Consequence) -> (r: PactRule)
        ensures
            is_prefixed_short_uuid(r.id@, "rule_"@),
            r.name@ == name@,
            r.description@ == name@,
            r.jurisdiction is None,
            r.severity == Severity::Medium,
            r.condition == condition,
            r.consequence == consequence,
            texts(r.tags@) == seq![self.spec_manifest().id@],
            r.effective_from is None,
            r.effective_to is None,
            r.metadata.entries_view() == seq![
                ("plugin_id"@, JsonData::Str(self.spec_manifest().id@)),
                ("plugin_version"@, JsonData::Str(self.spec_manifest().version@)),
            ],
    {
        let id = self.create_rule_id();
        self.create_rule_with_id(id, name, condition, consequence)
    }
}

/// The bytes that stand for a JSON value on chain: the UTF-8 encoding of its
/// canonical text (object keys sorted, no whitespace).
pub fn serialize_for_chain(data: &JsonValue) -> (r: Vec<u8>)
    ensures
        r@ == vstd::utf8::encode_utf8(canonical(data.data())),
{
    let text = canonical_json(data);
    text.as_str().as_bytes_vec()
}

/// Why bytes read from a chain are no JSON value.
#[derive(Debug)]
pub enum ChainDataError {
    /// The bytes are not one JSON text; serde_json's error says where.
    InvalidJson(serde_json::Error),
}

/// The JSON value that bytes read from a chain hold, as serde_json parses
/// them; an error exactly when they hold no JSON text.
pub fn deserialize_from_chain(data: &[u8]) -> (r: Result<JsonValue, ChainDataError>)
    ensures
        r is Ok <==> json_parsed(data@) is Some,
        r matches Ok(v) ==> Some(v.data()) == json_parsed(data@),
{
    match json_from_slice(data) {
        Ok(p) => Ok(JsonValue::from_parsed(&p)),
        Err(e) => Err(ChainDataError::InvalidJson(e)),
    }
}

/// The errors for the required fields that `data` lacks.
fn validate_required_fields(fields: &Vec<String>, data: &JsonMap) -> (r: ValidationResult)
    ensures
        r.errors@.map_values(|e: ValidationError| error_view(e)) == missing_field_errors(texts(fields@), data@),
        r.valid <==> r.errors@.len() == 0,
        r.warnings@.len() == 0,
{
    let mut errors: Vec<ValidationError> = Vec::new();
    let mut i: usize = 0;
    while i < fields.len()
        invariant
            i <= fields@.len(),
            errors@.map_values(|e: ValidationError| error_view(e)) == missing_field_errors(texts(fields@.take(i as int)), data@),
        decreases fields@.len() - i,
    {
        let ghost prev = errors@;
        proof {
            assert(texts(fields@.take(i + 1)) =~= texts(fields@.take(i as int)).push(fields@[i as int]@));
            texts(fields@.take(i as int)).lemma_filter_push(fields@[i as int]@, |f: Seq<char>| !data@.dom().contains(f));
        }
        if !data.contains_key(fields[i].as_str()) {
            let mut message = String::from_str("Required field '");
            message.append(fields[i].as_str());
            message.append("' is missing");
            errors.push(ValidationError {
                field: fields[i].clone(),
                message,
                code: String::from_str("REQUIRED_FIELD_MISSING"),
            });
            proof {
                assert(errors@.map_values(|e: ValidationError| error_view(e)) =~= prev.map_values(|e: ValidationError| error_view(e)).push(missing_field_error(fields@[i as int]@)));
            }
        }
        i = i + 1;
    }
    proof {
        assert(fields@.take(fields@.len() as int) =~= fields@);
    }
    if errors.len() == 0 {
        ValidationResult::success()
    } else {
        ValidationResult::failure(errors)
    }
}

} // verus!
