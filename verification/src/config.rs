//! The field schema model: pure data describing which metadata fields exist,
//! their kinds, and their validation and presentation hints.

use vstd::prelude::*;

verus! {

/// The closed set of field kinds a schema entry can declare.
#[derive(Clone, Copy, PartialEq, Eq, Structural, Debug)]
pub enum FieldKind {
    Text,
    Number,
    Boolean,
    SingleChoice,
    MultiChoice,
    Group,
}

impl FieldKind {
    /// True for every kind that carries a value directly (everything but `Group`).
    pub open spec fn is_leaf(self) -> bool {
        self != FieldKind::Group
    }

    /// True for the kinds that present a list of options to choose from.
    pub open spec fn has_options(self) -> bool {
        self == FieldKind::SingleChoice || self == FieldKind::MultiChoice
    }

    /// Maps a schema-source kind code to its `FieldKind`, or `None` for an
    /// unrecognized code.
    pub fn from_code(code: &str) -> (r: Option<FieldKind>)
        ensures
            r == Self::spec_from_code(code@),
    {
        proof {
            reveal_strlit("text");
            reveal_strlit("number");
            reveal_strlit("boolean");
            reveal_strlit("select");
            reveal_strlit("multiselect");
            reveal_strlit("object");
        }
        let owned = code.to_owned();
        if owned.eq(&String::from_str("text")) {
            Some(FieldKind::Text)
        } else if owned.eq(&String::from_str("number")) {
            Some(FieldKind::Number)
        } else if owned.eq(&String::from_str("boolean")) {
            Some(FieldKind::Boolean)
        } else if owned.eq(&String::from_str("select")) {
            Some(FieldKind::SingleChoice)
        } else if owned.eq(&String::from_str("multiselect")) {
            Some(FieldKind::MultiChoice)
        } else if owned.eq(&String::from_str("object")) {
            Some(FieldKind::Group)
        } else {
            None
        }
    }

    /// Which `FieldKind` a schema-source kind code denotes.
    pub open spec fn spec_from_code(code: Seq<char>) -> Option<FieldKind> {
        if code == "text"@ {
            Some(FieldKind::Text)
        } else if code == "number"@ {
            Some(FieldKind::Number)
        } else if code == "boolean"@ {
            Some(FieldKind::Boolean)
        } else if code == "select"@ {
            Some(FieldKind::SingleChoice)
        } else if code == "multiselect"@ {
            Some(FieldKind::MultiChoice)
        } else if code == "object"@ {
            Some(FieldKind::Group)
        } else {
            None
        }
    }
}

/// One declarative schema entry; immutable once loaded.
pub struct FrontmatterField {
    /// Identifier; unique among siblings at the same nesting level.
    pub name: String,
    /// Which kind of value this field carries.
    pub kind: FieldKind,
    /// Prompt text shown to the operator; when empty, the `name` is used.
    pub question: String,
    /// Hint text shown inside the input; only meaningful for `Text`.
    pub placeholder: String,
    /// Whether an empty answer is rejected.
    pub required: bool,
    /// Choices, in display order; populated only for the choice kinds.
    pub options: Vec<String>,
    /// Nested fields, in prompt order; populated only for `Group`.
    pub properties: Vec<FrontmatterField>,
}

impl FrontmatterField {
    /// The structural invariant of one schema entry: options exactly for the
    /// choice kinds (and then non-empty), children exactly for `Group`, and a
    /// group's children are themselves well-formed leaf fields.
    pub open spec fn well_formed(self) -> bool {
        &&& self.kind.has_options() ==> self.options@.len() > 0
        &&& !self.kind.has_options() ==> self.options@.len() == 0
        &&& self.kind != FieldKind::Group ==> self.properties@.len() == 0
        &&& self.kind == FieldKind::Group ==> forall|i: int|
            0 <= i < self.properties@.len() ==> {
                &&& (#[trigger] self.properties@[i]).kind.is_leaf()
                &&& self.properties@[i].well_formed_leaf()
            }
    }

    /// The invariant of a leaf entry, as `well_formed` demands of a group's
    /// children.
    pub open spec fn well_formed_leaf(self) -> bool {
        &&& self.kind.has_options() ==> self.options@.len() > 0
        &&& !self.kind.has_options() ==> self.options@.len() == 0
        &&& self.properties@.len() == 0
    }
}

/// The invariant of a whole schema: every top-level field is well formed.
pub open spec fn fields_well_formed(fields: Seq<FrontmatterField>) -> bool {
    forall|i: int| 0 <= i < fields.len() ==> (#[trigger] fields[i]).well_formed()
}

/// Checks the structural invariant of one field.
pub fn check_field(field: &FrontmatterField) -> (r: bool)
    ensures
        r == field.well_formed(),
{
    let has_options = match field.kind {
        FieldKind::SingleChoice | FieldKind::MultiChoice => true,
        _ => false,
    };
    if has_options && field.options.len() == 0 {
        return false;
    }
    if !has_options && field.options.len() > 0 {
        return false;
    }
    match field.kind {
        FieldKind::Group => {
            let mut i: usize = 0;
            while i < field.properties.len()
                invariant
                    0 <= i <= field.properties@.len(),
                    forall|j: int| 0 <= j < i ==> {
                        &&& (#[trigger] field.properties@[j]).kind.is_leaf()
                        &&& field.properties@[j].well_formed_leaf()
                    },
                decreases field.properties@.len() - i,
            {
                let child = &field.properties[i];
                let child_has_options = match child.kind {
                    FieldKind::SingleChoice | FieldKind::MultiChoice => true,
                    _ => false,
                };
                if matches!(child.kind, FieldKind::Group) {
                    return false;
                }
                if child_has_options && child.options.len() == 0 {
                    return false;
                }
                if !child_has_options && child.options.len() > 0 {
                    return false;
                }
                if child.properties.len() > 0 {
                    return false;
                }
                i = i + 1;
            }
            true
        },
        _ => field.properties.len() == 0,
    }
}

/// Checks the structural invariant of a whole schema, field by field.
pub fn check_fields(fields: &Vec<FrontmatterField>) -> (r: bool)
    ensures
        r == fields_well_formed(fields@),
{
    let mut i: usize = 0;
    while i < fields.len()
        invariant
            0 <= i <= fields@.len(),
            forall|j: int| 0 <= j < i ==> (#[trigger] fields@[j]).well_formed(),
        decreases fields@.len() - i,
    {
        if !check_field(&fields[i]) {
            return false;
        }
        i = i + 1;
    }
    true
}

/// The whole configuration read from the schema source.
pub struct Config {
    /// Extension given to the generated file.
    pub ext: String,
    /// Directory the generated file is placed in.
    pub output_path: String,
    /// The ordered frontmatter field schema.
    pub frontmatter_fields: Vec<FrontmatterField>,
}

/// The file extension used when the schema source does not name one.
pub fn default_ext() -> (r: String)
    ensures
        r@ == "md"@,
{
    String::from_str("md")
}

/// The output directory used when the schema source does not name one.
pub fn default_output_path() -> (r: String)
    ensures
        r@ == "."@,
{
    String::from_str(".")
}

/// Whether a field rejects empty answers when the schema source does not say.
pub fn default_required() -> (r: bool)
    ensures
        r == false,
{
    false
}

} // verus!
