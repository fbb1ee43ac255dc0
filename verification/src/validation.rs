//! Checking records against a schema and coercing their values to its types.
use vstd::prelude::*;

use crate::parse::{
    bool_error_message, bool_error_text, float_error_message, float_error_text, int_error_text,
    is_float, is_float_text, parse_bool, parse_i64, spec_parse_bool, spec_parse_i64,
};
use crate::pipeline::stage::{PipelineStage, StageContext, StageError, StageResult};
use crate::record::Record;
use crate::schema::{Field, Schema};
use crate::text::owned;
use crate::value::{is_text_of, DataType, Value};

verus! {

pub open spec fn missing_text(key: Seq<char>) -> Seq<char> {
    "Missing required field: "@ + key
}

pub open spec fn must_be_null_text(key: Seq<char>) -> Seq<char> {
    "Field '"@ + key + "' must be null"@
}

pub open spec fn not_nullable_text(key: Seq<char>) -> Seq<char> {
    "Field '"@ + key + "' is not nullable but got empty string"@
}

pub open spec fn incompatible_text(key: Seq<char>, kind_name: Seq<char>) -> Seq<char> {
    "Field '"@ + key + "' is not compatible with "@ + kind_name
}

pub open spec fn parse_failure_text(
    key: Seq<char>,
    text: Seq<char>,
    kind_name: Seq<char>,
    reason: Seq<char>,
) -> Seq<char> {
    "Failed to parse field '"@ + key + "' with value '"@ + text + "' as "@ + kind_name + ": "@
        + reason
}

/// How an empty string is read as a number or boolean: null where the field
/// may be null, an error otherwise.
pub open spec fn empty_outcome(key: Seq<char>, nullable: bool, out: Result<Value, Seq<char>>) -> bool {
    if nullable {
        out == Ok::<Value, Seq<char>>(Value::Null)
    } else {
        out == Err::<Value, Seq<char>>(not_nullable_text(key))
    }
}

/// `out` is what coercing `v` to type `t` gives for field `key`: the coerced
/// value or the error message. `parse_float` reads float text,
/// `int_to_float` converts integers and `float_text` writes floats.
pub open spec fn coerce_outcome<P: Fn(&str) -> u64, I: Fn(i64) -> u64, T: Fn(u64) -> String>(
    v: Value,
    t: DataType,
    nullable: bool,
    key: Seq<char>,
    parse_float: P,
    int_to_float: I,
    float_text: T,
    out: Result<Value, Seq<char>>,
) -> bool {
    match t {
        DataType::Null => if v is Null {
            out == Ok::<Value, Seq<char>>(Value::Null)
        } else {
            out == Err::<Value, Seq<char>>(must_be_null_text(key))
        },
        DataType::String => exists|text: String|
            {
                &&& match v {
                    Value::String(s) => text@ == s@,
                    _ => is_text_of(v, text, float_text),
                }
                &&& if text@.len() == 0 && !nullable {
                    out == Err::<Value, Seq<char>>(not_nullable_text(key))
                } else {
                    out matches Ok(Value::String(c)) && c@ == #[trigger] text@
                }
            },
        DataType::Int64 => match v {
            Value::Int64(x) => out == Ok::<Value, Seq<char>>(Value::Int64(x)),
            Value::String(s) => if s@.len() == 0 {
                empty_outcome(key, nullable, out)
            } else {
                match spec_parse_i64(s@) {
                    Ok(n) => out == Ok::<Value, Seq<char>>(Value::Int64(n as i64)),
                    Err(kind) => out == Err::<Value, Seq<char>>(
                        parse_failure_text(key, s@, "Int64"@, int_error_text(kind)),
                    ),
                }
            },
            _ => out == Err::<Value, Seq<char>>(incompatible_text(key, "Int64"@)),
        },
        DataType::Float64 => match v {
            Value::Float64(b) => out == Ok::<Value, Seq<char>>(Value::Float64(b)),
            Value::Int64(x) => exists|b: u64|
                #[trigger] int_to_float.ensures((x,), b) && out == Ok::<Value, Seq<char>>(
                    Value::Float64(b),
                ),
            Value::String(s) => if s@.len() == 0 {
                empty_outcome(key, nullable, out)
            } else if is_float_text(s@) {
                exists|b: u64, t: &str|
                    t@ == s@ && #[trigger] parse_float.ensures((t,), b) && out == Ok::<
                        Value,
                        Seq<char>,
                    >(Value::Float64(b))
            } else {
                out == Err::<Value, Seq<char>>(
                    parse_failure_text(key, s@, "Float64"@, float_error_text()),
                )
            },
            _ => out == Err::<Value, Seq<char>>(incompatible_text(key, "Float64"@)),
        },
        DataType::Boolean => match v {
            Value::Boolean(x) => out == Ok::<Value, Seq<char>>(Value::Boolean(x)),
            Value::String(s) => if s@.len() == 0 {
                empty_outcome(key, nullable, out)
            } else {
                match spec_parse_bool(s@) {
                    Some(b) => out == Ok::<Value, Seq<char>>(Value::Boolean(b)),
                    None => out == Err::<Value, Seq<char>>(
                        parse_failure_text(key, s@, "Boolean"@, bool_error_text()),
                    ),
                }
            },
            _ => out == Err::<Value, Seq<char>>(incompatible_text(key, "Boolean"@)),
        },
    }
}

/// Checking one schema field takes the record from `before` to `after`;
/// `failure` is the message of the error it gives, if any.
pub open spec fn field_step<P: Fn(&str) -> u64, I: Fn(i64) -> u64, T: Fn(u64) -> String>(
    field: Field,
    parse_float: P,
    int_to_float: I,
    float_text: T,
    before: Map<Seq<char>, Value>,
    after: Map<Seq<char>, Value>,
    failure: Option<Seq<char>>,
) -> bool {
    let key = field.spec_name();
    if !before.dom().contains(key) || before[key] is Null {
        if field.spec_nullable() {
            failure is None && after == before.insert(key, Value::Null)
        } else {
            failure == Some(missing_text(key)) && after == before
        }
    } else {
        exists|out: Result<Value, Seq<char>>|
            #[trigger] coerce_outcome(
                before[key],
                field.spec_data_type(),
                field.spec_nullable(),
                key,
                parse_float,
                int_to_float,
                float_text,
                out,
            ) && match out {
                Ok(c) => failure is None && after == before.insert(key, c),
                Err(message) => failure == Some(message) && after == before,
            }
    }
}

/// Checking `fields` in order, none failing, takes the record from `before`
/// to `after`.
pub open spec fn fields_pass<P: Fn(&str) -> u64, I: Fn(i64) -> u64, T: Fn(u64) -> String>(
    fields: Seq<Field>,
    parse_float: P,
    int_to_float: I,
    float_text: T,
    before: Map<Seq<char>, Value>,
    after: Map<Seq<char>, Value>,
) -> bool
    decreases fields.len(),
{
    if fields.len() == 0 {
        after == before
    } else {
        exists|mid: Map<Seq<char>, Value>|
            fields_pass(
                fields.drop_last(),
                parse_float,
                int_to_float,
                float_text,
                before,
                mid,
            ) && #[trigger] field_step(
                fields.last(),
                parse_float,
                int_to_float,
                float_text,
                mid,
                after,
                None,
            )
    }
}

/// Checking one more field, without failure, extends a passing run.
pub proof fn lemma_fields_pass_step<P: Fn(&str) -> u64, I: Fn(i64) -> u64, T: Fn(u64) -> String>(
    fields: Seq<Field>,
    parse_float: P,
    int_to_float: I,
    float_text: T,
    before: Map<Seq<char>, Value>,
    mid: Map<Seq<char>, Value>,
    after: Map<Seq<char>, Value>,
)
    requires
        fields.len() > 0,
        fields_pass(fields.drop_last(), parse_float, int_to_float, float_text, before, mid),
        field_step(fields.last(), parse_float, int_to_float, float_text, mid, after, None),
    ensures
        fields_pass(fields, parse_float, int_to_float, float_text, before, after),
{
}

/// Validates records against a schema, coercing their values to its types.
/// `parse_float` reads float text, `int_to_float` converts integers to
/// floats and `float_text` writes floats; all three work on bit patterns.
pub struct SchemaValidation<P: Fn(&str) -> u64, I: Fn(i64) -> u64, T: Fn(u64) -> String> {
    schema: Schema,
    parse_float: P,
    int_to_float: I,
    float_text: T,
}

impl<P: Fn(&str) -> u64, I: Fn(i64) -> u64, T: Fn(u64) -> String> SchemaValidation<P, I, T> {
    #[verifier::type_invariant]
    spec fn callable(&self) -> bool {
        &&& forall|s: &str| is_float_text(s@) ==> self.parse_float.requires((s,))
        &&& forall|x: i64| self.int_to_float.requires((x,))
        &&& forall|b: u64| self.float_text.requires((b,))
    }

    pub fn new(schema: Schema, parse_float: P, int_to_float: I, float_text: T) -> (r:
        SchemaValidation<P, I, T>)
        requires
            forall|s: &str| is_float_text(s@) ==> parse_float.requires((s,)),
            forall|x: i64| int_to_float.requires((x,)),
            forall|b: u64| float_text.requires((b,)),
        ensures
            r.fields() == schema.spec_fields(),
            r.float_reader() == parse_float,
            r.int_converter() == int_to_float,
            r.float_writer() == float_text,
    {
        SchemaValidation { schema, parse_float, int_to_float, float_text }
    }

    pub closed spec fn fields(&self) -> Seq<Field> {
        self.schema.spec_fields()
    }

    pub closed spec fn float_reader(&self) -> P {
        self.parse_float
    }

    pub closed spec fn int_converter(&self) -> I {
        self.int_to_float
    }

    pub closed spec fn float_writer(&self) -> T {
        self.float_text
    }

    fn error(message: &str) -> (r: StageError)
        ensures
            r.stage_name() == "SchemaValidation"@,
            r.message_text() == message@,
    {
        proof {
            reveal_strlit("SchemaValidation");
        }
        StageError::execution("SchemaValidation", message)
    }

    fn field_message(before: &str, key: &str, after: &str) -> (r: String)
        ensures
            r@ == before@ + key@ + after@,
    {
        let mut message = owned(before);
        message.append(key);
        message.append(after);
        message
    }

    fn incompatible(key: &str, kind_name: &str) -> (r: String)
        ensures
            r@ == incompatible_text(key@, kind_name@),
    {
        let mut message = owned("Field '");
        message.append(key);
        message.append("' is not compatible with ");
        message.append(kind_name);
        message
    }

    fn parse_failure(key: &str, text: &str, kind_name: &str, reason: &str) -> (r: String)
        ensures
            r@ == parse_failure_text(key@, text@, kind_name@, reason@),
    {
        let mut message = owned("Failed to parse field '");
        message.append(key);
        message.append("' with value '");
        message.append(text);
        message.append("' as ");
        message.append(kind_name);
        message.append(": ");
        message.append(reason);
        message
    }

    /// An empty string read as a number or a boolean.
    fn coerce_empty(&self, is_nullable: bool, key: &str) -> (r: Result<Value, String>)
        ensures
            empty_outcome(key@, is_nullable, spec_message_result(r)),
    {
        if is_nullable {
            Ok(Value::Null)
        } else {
            Err(Self::field_message("Field '", key, "' is not nullable but got empty string"))
        }
    }

    /// `value` coerced to `data_type` for the field `key`, or the message of
    /// why it cannot be.
    pub fn coerce_value(&self, value: &Value, data_type: DataType, is_nullable: bool, key: &str) -> (r:
        Result<Value, String>)
        ensures
            coerce_outcome(
                *value,
                data_type,
                is_nullable,
                key@,
                self.float_reader(),
                self.int_converter(),
                self.float_writer(),
                spec_message_result(r),
            ),
    {
        proof {
            use_type_invariant(self);
            reveal_strlit("Int64");
            reveal_strlit("Float64");
            reveal_strlit("Boolean");
        }
        match data_type {
            DataType::Null => {
                if !matches!(value, Value::Null) {
                    return Err(Self::field_message("Field '", key, "' must be null"));
                }
                Ok(Value::Null)
            },
            DataType::String => {
                let coerced = match value {
                    Value::String(s) => s.clone(),
                    _ => value.to_text(&self.float_text),
                };
                if coerced.as_str().is_empty() && !is_nullable {
                    return Err(
                        Self::field_message("Field '", key, "' is not nullable but got empty string"),
                    );
                }
                Ok(Value::String(coerced))
            },
            DataType::Int64 => self.coerce_int64(value, is_nullable, key),
            DataType::Float64 => self.coerce_float64(value, is_nullable, key),
            DataType::Boolean => self.coerce_boolean(value, is_nullable, key),
        }
    }

    fn coerce_int64(&self, value: &Value, is_nullable: bool, key: &str) -> (r: Result<
        Value,
        String,
    >)
        ensures
            coerce_outcome(
                *value,
                DataType::Int64,
                is_nullable,
                key@,
                self.float_reader(),
                self.int_converter(),
                self.float_writer(),
                spec_message_result(r),
            ),
    {
        proof {
            reveal_strlit("Int64");
        }
        match value {
            Value::Int64(v) => Ok(Value::Int64(*v)),
            Value::String(s) => {
                if s.as_str().is_empty() {
                    self.coerce_empty(is_nullable, key)
                } else {
                    match parse_i64(s.as_str()) {
                        Ok(n) => Ok(Value::Int64(n)),
                        Err(kind) => Err(
                            Self::parse_failure(key, s.as_str(), "Int64", kind.message().as_str()),
                        ),
                    }
                }
            },
            _ => Err(Self::incompatible(key, "Int64")),
        }
    }

    fn coerce_float64(&self, value: &Value, is_nullable: bool, key: &str) -> (r: Result<
        Value,
        String,
    >)
        ensures
            coerce_outcome(
                *value,
                DataType::Float64,
                is_nullable,
                key@,
                self.float_reader(),
                self.int_converter(),
                self.float_writer(),
                spec_message_result(r),
            ),
    {
        proof {
            use_type_invariant(self);
            reveal_strlit("Float64");
        }
        match value {
            Value::Float64(v) => Ok(Value::Float64(*v)),
            Value::Int64(v) => Ok(Value::Float64((self.int_to_float)(*v))),
            Value::String(s) => {
                if s.as_str().is_empty() {
                    self.coerce_empty(is_nullable, key)
                } else if is_float(s.as_str()) {
                    Ok(Value::Float64((self.parse_float)(s.as_str())))
                } else {
                    Err(
                        Self::parse_failure(
                            key,
                            s.as_str(),
                            "Float64",
                            float_error_message().as_str(),
                        ),
                    )
                }
            },
            _ => Err(Self::incompatible(key, "Float64")),
        }
    }

    fn coerce_boolean(&self, value: &Value, is_nullable: bool, key: &str) -> (r: Result<
        Value,
        String,
    >)
        ensures
            coerce_outcome(
                *value,
                DataType::Boolean,
                is_nullable,
                key@,
                self.float_reader(),
                self.int_converter(),
                self.float_writer(),
                spec_message_result(r),
            ),
    {
        proof {
            reveal_strlit("Boolean");
        }
        match value {
            Value::Boolean(v) => Ok(Value::Boolean(*v)),
            Value::String(s) => {
                if s.as_str().is_empty() {
                    self.coerce_empty(is_nullable, key)
                } else {
                    match parse_bool(s.as_str()) {
                        Some(b) => Ok(Value::Boolean(b)),
                        None => Err(
                            Self::parse_failure(
                                key,
                                s.as_str(),
                                "Boolean",
                                bool_error_message().as_str(),
                            ),
                        ),
                    }
                }
            },
            _ => Err(Self::incompatible(key, "Boolean")),
        }
    }
}

/// A coercion result with its error message as characters.
pub open spec fn spec_message_result(r: Result<Value, String>) -> Result<Value, Seq<char>> {
    match r {
        Ok(v) => Ok(v),
        Err(m) => Err(m@),
    }
}

impl<P: Fn(&str) -> u64, I: Fn(i64) -> u64, T: Fn(u64) -> String> PipelineStage for SchemaValidation<
    P,
    I,
    T,
> {
    open spec fn reports(&self, name: Seq<char>) -> bool {
        name == "SchemaValidation"@
    }

    open spec fn outcome(&self, before: Record, ctx: StageContext, result: StageResult, after: Record) -> bool {
        &&& result is Continue ==> fields_pass(
                    self.fields(),
                    self.float_reader(),
                    self.int_converter(),
                    self.float_writer(),
                    before@,
                    after@,
                )
        &&& result is Skip ==> false
        &&& result matches StageResult::Fail { error } ==> error.stage_name() == "SchemaValidation"@
                    && exists|k: int, mid: Map<Seq<char>, Value>|
                    0 <= k < self.fields().len() && #[trigger] fields_pass(
                        self.fields().take(k),
                        self.float_reader(),
                        self.int_converter(),
                        self.float_writer(),
                        before@,
                        mid,
                    ) && field_step(
                        self.fields()[k],
                        self.float_reader(),
                        self.int_converter(),
                        self.float_writer(),
                        mid,
                        after@,
                        Some(error.message_text()),
                    )
    }

    fn name(&self) -> (r: &'static str)
        ensures
            r@ == "SchemaValidation"@,
    {
        "SchemaValidation"
    }

    /// Checks the fields of the schema in order: a missing or null field is
    /// set to null where the field may be null and fails otherwise; any
    /// other value is coerced to the field's type. Stops at the first error.
    fn execute(&self, record: &mut Record, ctx: &StageContext) -> (r: StageResult)
        ensures
            r is Continue ==> fields_pass(
                self.fields(),
                self.float_reader(),
                self.int_converter(),
                self.float_writer(),
                old(record)@,
                final(record)@,
            ),
            r is Skip ==> false,
            r matches StageResult::Fail { error } ==> error.stage_name() == "SchemaValidation"@
                && exists|k: int, mid: Map<Seq<char>, Value>|
                0 <= k < self.fields().len() && #[trigger] fields_pass(
                    self.fields().take(k),
                    self.float_reader(),
                    self.int_converter(),
                    self.float_writer(),
                    old(record)@,
                    mid,
                ) && field_step(
                    self.fields()[k],
                    self.float_reader(),
                    self.int_converter(),
                    self.float_writer(),
                    mid,
                    final(record)@,
                    Some(error.message_text()),
                ),
    {
        proof {
            use_type_invariant(self);
        }
        let fields = self.schema.fields();
        let ghost initial = record@;
        let ghost all = self.fields();
        let mut i: usize = 0;
        proof {
            assert(all.take(0) =~= Seq::<Field>::empty());
        }
        while i < fields.len()
            invariant
                fields@ == all,
                all == self.fields(),
                initial == old(record)@,
                i <= fields@.len(),
                fields_pass(
                    all.take(i as int),
                    self.float_reader(),
                    self.int_converter(),
                    self.float_writer(),
                    initial,
                    record@,
                ),
            decreases fields@.len() - i,
        {
            let field = &fields[i];
            let key = field.name();
            assert(*field == all[i as int]);
            let ghost mid = record@;
            let ghost prefix = all.take(i as int);
            proof {
                assert(all.take(i + 1).drop_last() =~= prefix);
                assert(all.take(i + 1).last() == *field);
            }
            let present = match record.get(key) {
                None => None,
                Some(Value::Null) => None,
                Some(value) => Some(self.coerce_value(
                    value,
                    field.data_type(),
                    field.is_nullable(),
                    key,
                )),
            };
            match present {
                None => {
                    if !field.is_nullable() {
                        let mut message = owned("Missing required field: ");
                        message.append(key);
                        let error = Self::error(message.as_str());
                        proof {
                            assert(field_step(
                                *field,
                                self.float_reader(),
                                self.int_converter(),
                                self.float_writer(),
                                mid,
                                record@,
                                Some(error.message_text()),
                            ));
                        }
                        return StageResult::Fail { error };
                    }
                    record.insert(key, Value::Null);
                    proof {
                        assert(!mid.dom().contains(key@) || mid[key@] is Null);
                        assert(record@ == mid.insert(key@, Value::Null));
                        assert(field_step(
                            *field,
                            self.float_reader(),
                            self.int_converter(),
                            self.float_writer(),
                            mid,
                            record@,
                            None,
                        ));
                        let f = all.take(i + 1);
                        assert(f.drop_last() == prefix);
                        assert(f.last() == *field);
                        assert(fields_pass(
                            f.drop_last(),
                            self.float_reader(),
                            self.int_converter(),
                            self.float_writer(),
                            initial,
                            mid,
                        ));
                        lemma_fields_pass_step(
                            f,
                            self.float_reader(),
                            self.int_converter(),
                            self.float_writer(),
                            initial,
                            mid,
                            record@,
                        );
                    }
                },
                Some(Ok(coerced)) => {
                    let ghost c = coerced;
                    record.insert(key, coerced);
                    proof {
                        let out = Ok::<Value, Seq<char>>(c);
                        assert(coerce_outcome(
                            mid[key@],
                            field.spec_data_type(),
                            field.spec_nullable(),
                            key@,
                            self.float_reader(),
                            self.int_converter(),
                            self.float_writer(),
                            out,
                        ));
                        assert(field_step(
                            *field,
                            self.float_reader(),
                            self.int_converter(),
                            self.float_writer(),
                            mid,
                            record@,
                            None,
                        ));
                        let f = all.take(i + 1);
                        assert(f.drop_last() == prefix);
                        assert(f.last() == *field);
                        assert(fields_pass(
                            f.drop_last(),
                            self.float_reader(),
                            self.int_converter(),
                            self.float_writer(),
                            initial,
                            mid,
                        ));
                        lemma_fields_pass_step(
                            f,
                            self.float_reader(),
                            self.int_converter(),
                            self.float_writer(),
                            initial,
                            mid,
                            record@,
                        );
                    }
                },
                Some(Err(message)) => {
                    let error = Self::error(message.as_str());
                    proof {
                        let out = Err::<Value, Seq<char>>(message@);
                        assert(coerce_outcome(
                            mid[key@],
                            field.spec_data_type(),
                            field.spec_nullable(),
                            key@,
                            self.float_reader(),
                            self.int_converter(),
                            self.float_writer(),
                            out,
                        ));
                        assert(field_step(
                            *field,
                            self.float_reader(),
                            self.int_converter(),
                            self.float_writer(),
                            mid,
                            record@,
                            Some(error.message_text()),
                        ));
                    }
                    return StageResult::Fail { error };
                },
            }
            i = i + 1;
        }
        proof {
            assert(all.take(all.len() as int) =~= all);
        }
        StageResult::Continue
    }
}

} // verus!
