//! The structured output an agent is asked for: its schema definition and the
//! check of what a model produced against it.
use vstd::prelude::*;

use crate::errors::{ModelBehaviorError, UserError};
use crate::json::{json_parse, json_text, json_to_string, json_view, parse_json, Json, JsonValue};
use crate::strict_schema::{ensure_strict_json_schema, normalization_ends, strict_schema};
use crate::text::{concat2, concat3, str_eq};

verus! {

/// The schema of an agent's structured output.
pub struct OutputSchemaDefinition {
    pub name: String,
    pub schema: JsonValue,
    pub strict: bool,
}

impl OutputSchemaDefinition {
    /// A definition with the given name, schema and strictness.
    pub fn new(name: String, schema: JsonValue, strict: bool) -> (res: Self)
        ensures
            res.name == name,
            res.schema == schema,
            res.strict == strict,
    {
        OutputSchemaDefinition { name, schema, strict }
    }
}

/// The output schema of the type `T` a run's final output is read as.
pub struct AgentOutputSchema<T> {
    name: String,
    strict_json_schema: bool,
    _marker: std::marker::PhantomData<T>,
}

/// The names Rust gives the type `String`.
pub open spec fn names_string(name: Seq<char>) -> bool {
    name == "alloc::string::String"@ || name == "std::string::String"@
}

/// The error of strict output that changes when read as the output type.
pub open spec fn strict_mismatch_message(original: crate::json::Json, normalized: crate::json::Json) -> Seq<char> {
    "structured output did not match strict schema; original="@ + json_text(original) + ", normalized="@
        + json_text(normalized)
}

impl<T> AgentOutputSchema<T> {
    /// The name of the output type.
    pub closed spec fn name_view(&self) -> Seq<char> {
        self.name@
    }

    /// Whether the output must match the schema strictly.
    pub closed spec fn strict_view(&self) -> bool {
        self.strict_json_schema
    }

    /// The schema of `T`, named by the full path of `T`, strict or not.
    pub fn new(output_type_path: String, strict_json_schema: bool) -> (res: Self)
        ensures
            res.name_view() == output_type_path@,
            res.strict_view() == strict_json_schema,
    {
        AgentOutputSchema { name: output_type_path, strict_json_schema, _marker: std::marker::PhantomData }
    }

    /// Whether the output is plain text (the output type is `String`).
    pub fn is_plain_text(&self) -> (res: bool)
        ensures
            res == names_string(self.name_view()),
    {
        str_eq(self.name.as_str(), "alloc::string::String") || str_eq(self.name.as_str(), "std::string::String")
    }

    /// The name of the output type.
    pub fn name(&self) -> (res: &str)
        ensures
            res@ == self.name_view(),
    {
        self.name.as_str()
    }

    /// Whether the output must match the schema strictly.
    pub fn is_strict_json_schema(&self) -> (res: bool)
        ensures
            res == self.strict_view(),
    {
        self.strict_json_schema
    }

    /// Refuses a JSON schema for plain text output.
    pub fn check_has_json_schema(&self) -> (res: Result<(), UserError>)
        ensures
            match res {
                Ok(_) => !names_string(self.name_view()),
                Err(e) => names_string(self.name_view()) && e.message@ == "plain text output has no JSON schema"@,
            },
    {
        if self.is_plain_text() {
            return Err(UserError { message: String::from_str("plain text output has no JSON schema") });
        }
        Ok(())
    }

    /// The output as the output type reads it back (`normalized`), unless the
    /// schema is strict and that differs from what the model produced
    /// (`original`).
    pub fn check_normalized(&self, original: &JsonValue, normalized: JsonValue) -> (res: Result<
        JsonValue,
        ModelBehaviorError,
    >)
        ensures
            match res {
                Ok(v) => v == normalized && !(self.strict_view() && json_view(*original) != json_view(normalized)),
                Err(e) => self.strict_view() && json_view(*original) != json_view(normalized) && e.message@
                    == strict_mismatch_message(json_view(*original), json_view(normalized)),
            },
    {
        if self.strict_json_schema && !crate::json::json_eq(original, &normalized) {
            let o = json_to_string(original);
            let n = json_to_string(&normalized);
            let head = concat3("structured output did not match strict schema; original=", o.as_str(), ", normalized=");
            return Err(ModelBehaviorError { message: concat2(head.as_str(), n.as_str()) });
        }
        Ok(normalized)
    }
}

impl<T> AgentOutputSchema<T> {
    /// The JSON schema of the output type, from the schema generated for it:
    /// refused for plain text output, brought into the strict subset when the
    /// schema is strict, else as generated.
    pub fn json_schema(&self, generated: JsonValue) -> (res: Result<JsonValue, UserError>)
        requires
            !names_string(self.name_view()) && self.strict_view() ==> json_view(generated) == Json::Object(
                Seq::empty(),
            ) || normalization_ends(json_view(generated)),
        ensures
            names_string(self.name_view()) ==> (res matches Err(e) && e.message@
                == "plain text output has no JSON schema"@),
            !names_string(self.name_view()) && self.strict_view() ==> match res {
                Ok(v) => strict_schema(json_view(generated)) == Ok::<Json, Seq<char>>(json_view(v)),
                Err(e) => strict_schema(json_view(generated)) == Err::<Json, Seq<char>>(e.message@),
            },
            !names_string(self.name_view()) && !self.strict_view() ==> res == Ok::<JsonValue, UserError>(generated),
    {
        match self.check_has_json_schema() {
            Err(e) => Err(e),
            Ok(_) => if self.strict_json_schema {
                ensure_strict_json_schema(generated)
            } else {
                Ok(generated)
            },
        }
    }

    /// Checks what a model produced: `json` must be JSON text, `read_back` is
    /// that text read as the output type and written back as JSON (or the error
    /// of reading it), and under a strict schema the two must be the same.
    pub fn validate_json(&self, json: &str, read_back: Result<JsonValue, String>) -> (res: Result<
        JsonValue,
        ModelBehaviorError,
    >)
        ensures
            match json_parse(json@) {
                Err(m) => res matches Err(e) && e.message@ == m,
                Ok(original) => match read_back {
                    Err(m) => res matches Err(e) && e.message@ == m@,
                    Ok(normalized) => if self.strict_view() && original != json_view(normalized) {
                        res matches Err(e) && e.message@ == strict_mismatch_message(original, json_view(normalized))
                    } else {
                        res == Ok::<JsonValue, ModelBehaviorError>(normalized)
                    },
                },
            },
    {
        let original = match parse_json(json) {
            Ok(v) => v,
            Err(m) => return Err(ModelBehaviorError { message: m }),
        };
        let normalized = match read_back {
            Ok(v) => v,
            Err(m) => return Err(ModelBehaviorError { message: m }),
        };
        self.check_normalized(&original, normalized)
    }
}

} // verus!
