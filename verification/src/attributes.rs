//! Attribute records: the JSON-like values attached to each polygon.

use vstd::prelude::*;

verus! {

/// Mathematical model of a JSON-like attribute value. Only text is supported;
/// every other field kind of the boundary file is represented as null.
pub enum JsonValueModel {
    Text(Seq<char>),
    Null,
}

/// A JSON-like attribute value.
#[derive(Debug)]
pub enum JsonValue {
    Text(String),
    Null,
}

impl View for JsonValue {
    type V = JsonValueModel;

    open spec fn view(&self) -> JsonValueModel {
        match self {
            JsonValue::Text(s) => JsonValueModel::Text(s@),
            JsonValue::Null => JsonValueModel::Null,
        }
    }
}

impl JsonValue {
    /// A value equal to this one under the model.
    pub fn duplicate(&self) -> (r: JsonValue)
        ensures
            r@ == self@,
    {
        match self {
            JsonValue::Text(s) => JsonValue::Text(s.clone()),
            JsonValue::Null => JsonValue::Null,
        }
    }
}

/// A raw attribute field value as the boundary-file decoder hands it over.
/// Character fields carry their optional text; every other field kind arrives
/// as `Unsupported`.
#[derive(Debug)]
pub enum FieldValue {
    Character(Option<String>),
    Unsupported,
}

/// The JSON-like value a raw field decodes to: present character text becomes
/// text, everything else becomes null.
pub open spec fn spec_field_value_to_json(v: FieldValue) -> JsonValueModel {
    match v {
        FieldValue::Character(opt) => match opt {
            Some(s) => JsonValueModel::Text(s@),
            None => JsonValueModel::Null,
        },
        FieldValue::Unsupported => JsonValueModel::Null,
    }
}

/// Converts one raw field value into its JSON-like value.
pub fn field_value_to_json(value: &FieldValue) -> (r: JsonValue)
    ensures
        r@ == spec_field_value_to_json(*value),
{
    match value {
        FieldValue::Character(opt) => match opt {
            Some(s) => JsonValue::Text(s.clone()),
            None => JsonValue::Null,
        },
        FieldValue::Unsupported => JsonValue::Null,
    }
}

/// One named attribute field.
#[derive(Debug)]
pub struct AttrField {
    pub name: String,
    pub value: JsonValue,
}

impl View for AttrField {
    type V = (Seq<char>, JsonValueModel);

    open spec fn view(&self) -> (Seq<char>, JsonValueModel) {
        (self.name@, self.value@)
    }
}

/// An ordered mapping from field name to JSON-like value, shared by every
/// polygon produced from one source shape.
#[derive(Debug)]
pub struct AttrRecord {
    pub fields: Vec<AttrField>,
}

impl View for AttrRecord {
    type V = Seq<(Seq<char>, JsonValueModel)>;

    open spec fn view(&self) -> Seq<(Seq<char>, JsonValueModel)> {
        self.fields@.map_values(|f: AttrField| f@)
    }
}

impl AttrRecord {
    /// A record equal to this one under the model.
    pub fn duplicate(&self) -> (r: AttrRecord)
        ensures
            r@ == self@,
    {
        let mut fields: Vec<AttrField> = Vec::new();
        let n = self.fields.len();
        let mut i: usize = 0;
        while i < n
            invariant
                0 <= i <= n,
                n == self.fields@.len(),
                fields@.len() == i,
                forall|j: int| 0 <= j < i ==> fields@[j]@ == self.fields@[j]@,
            decreases n - i,
        {
            let f = &self.fields[i];
            fields.push(AttrField { name: f.name.clone(), value: f.value.duplicate() });
            i += 1;
        }
        let r = AttrRecord { fields };
        proof {
            assert(r@ =~= self@);
        }
        r
    }
}

/// Builds the attribute record of one raw attribute record, field by field,
/// keeping the input order: each present character field becomes text, every
/// other field becomes null.
pub fn record_to_json(record: &Vec<(String, FieldValue)>) -> (r: AttrRecord)
    ensures
        r@.len() == record@.len(),
        forall|i: int| 0 <= i < record@.len() ==> r@[i] == (
            record@[i].0@,
            spec_field_value_to_json(record@[i].1),
        ),
{
    let mut fields: Vec<AttrField> = Vec::new();
    let n = record.len();
    let mut i: usize = 0;
    while i < n
        invariant
            0 <= i <= n,
            n == record@.len(),
            fields@.len() == i,
            forall|j: int| 0 <= j < i ==> fields@[j]@ == (
                record@[j].0@,
                spec_field_value_to_json(record@[j].1),
            ),
        decreases n - i,
    {
        let pair = &record[i];
        fields.push(AttrField { name: pair.0.clone(), value: field_value_to_json(&pair.1) });
        i += 1;
    }
    AttrRecord { fields }
}

} // verus!
