//! Planning of the `Dispatch` derive: for an enum of subcommands whose
//! variants each wrap one `some::module::SubArgs`, every variant is sent to
//! the `run` function of the module that its argument type lives in.
//!
//! The derive reads the enum into the plain shapes below, and turns the plan
//! back into code.
use vstd::prelude::*;
use vstd::string::*;

verus! {

/// The type of a variant's field: a path such as `stats::SubArgs`, by its
/// segments, or any other type.
pub enum FieldType {
    Path(Vec<String>),
    Other,
}

/// The fields of a variant.
pub enum VariantFields {
    Named,
    Unnamed(Vec<FieldType>),
    Unit,
}

/// A variant of the derived enum.
pub struct VariantShape {
    pub name: String,
    pub fields: VariantFields,
}

/// The item the derive is applied to.
pub enum ItemShape {
    Enum(Vec<VariantShape>),
    Other,
}

/// The derive was applied to something other than an enum.
#[derive(Clone, Copy, Debug, PartialEq, Eq, Structural)]
pub enum DispatchError {
    NotEnum,
}

/// Why a variant cannot be dispatched.
#[derive(Clone, Copy, Debug, PartialEq, Eq, Structural)]
pub enum ArmError {
    /// The variant is not a tuple variant.
    NotTupleVariant,
    /// The tuple variant does not have exactly one field.
    FieldCount,
    /// The field's type is not a plain path.
    NotPathType,
}

/// One arm of the generated `dispatch`: the variant's argument goes to the
/// `run` function of `module`.
pub struct DispatchArm {
    pub variant: String,
    pub module: Vec<String>,
}

impl DispatchError {
    /// The compile error reported for this error.
    pub fn message(&self) -> (r: String)
        ensures
            r@ == "Dispatch only works on enums"@,
    {
        String::from_str("Dispatch only works on enums")
    }
}

impl ArmError {
    /// The compile error reported in place of the variant's arm.
    pub fn message(&self) -> (r: String)
        ensures
            *self == ArmError::NotTupleVariant ==> r@
                == "Dispatch requires single-field tuple variants, e.g. Stats(stats::SubArgs)"@,
            *self == ArmError::FieldCount ==> r@ == "Dispatch requires exactly one field per variant"@,
            *self == ArmError::NotPathType ==> r@
                == "Dispatch requires a plain path type (e.g. stats::SubArgs)"@,
    {
        match self {
            ArmError::NotTupleVariant => String::from_str(
                "Dispatch requires single-field tuple variants, e.g. Stats(stats::SubArgs)",
            ),
            ArmError::FieldCount => String::from_str("Dispatch requires exactly one field per variant"),
            ArmError::NotPathType => String::from_str(
                "Dispatch requires a plain path type (e.g. stats::SubArgs)",
            ),
        }
    }
}

/// The segments of the variant's argument type, when it has exactly one
/// field and that field's type is a path.
pub open spec fn argument_path(v: VariantShape) -> Option<Seq<Seq<char>>> {
    match v.fields {
        VariantFields::Unnamed(fs) => if fs@.len() == 1 {
            match fs@[0] {
                FieldType::Path(segs) => Some(segs.deep_view()),
                FieldType::Other => None,
            }
        } else {
            None
        },
        _ => None,
    }
}

/// The error for a variant that cannot be dispatched, if any.
pub open spec fn arm_error(v: VariantShape) -> Option<ArmError> {
    match v.fields {
        VariantFields::Unnamed(fs) => if fs@.len() != 1 {
            Some(ArmError::FieldCount)
        } else {
            match fs@[0] {
                FieldType::Path(_) => None,
                FieldType::Other => Some(ArmError::NotPathType),
            }
        },
        _ => Some(ArmError::NotTupleVariant),
    }
}

/// `arm` is what the derive makes of variant `v`: its error, or the arm that
/// sends it to the module of its argument type (the type's path without its
/// last segment).
pub open spec fn arm_fits(v: VariantShape, arm: Result<DispatchArm, ArmError>) -> bool {
    match arm {
        Ok(a) => arm_error(v) is None && a.variant@ == v.name@ && a.module.deep_view()
            == argument_path(v)->0.drop_last(),
        Err(e) => arm_error(v) == Some(e),
    }
}

/// The derive cannot name the module of an argument type that is a single
/// segment, such as a bare `SubArgs`: the module path would be empty.
pub open spec fn module_nameable(v: VariantShape) -> bool {
    argument_path(v) matches Some(segs) ==> segs.len() >= 2
}

/// The module of a type path: the path without its last segment.
pub fn module_from_type_path(segments: &Vec<String>) -> (r: Vec<String>)
    requires
        segments.len() >= 2,
    ensures
        r.deep_view() == segments.deep_view().drop_last(),
{
    let n = segments.len() - 1;
    let mut r: Vec<String> = Vec::new();
    let mut i: usize = 0;
    while i < n
        invariant
            n == segments.len() - 1,
            i <= n,
            r.deep_view() == segments.deep_view().take(i as int),
        decreases n - i,
    {
        r.push(segments[i].clone());
        assert(segments.deep_view().take(i + 1) =~= segments.deep_view().take(i as int).push(
            segments@[i as int]@,
        ));
        assert(r.deep_view() =~= segments.deep_view().take(i + 1));
        i += 1;
    }
    r
}

/// The arm for one variant.
pub fn plan_arm(v: &VariantShape) -> (r: Result<DispatchArm, ArmError>)
    requires
        module_nameable(*v),
    ensures
        arm_fits(*v, r),
        // A variant that is not a tuple variant is refused.
        (v.fields is Named || v.fields is Unit) ==> r == Err::<DispatchArm, ArmError>(
            ArmError::NotTupleVariant,
        ),
        // A tuple variant with other than one field is refused, whatever its
        // field types.
        v.fields is Unnamed && v.fields->0@.len() != 1 ==> r == Err::<DispatchArm, ArmError>(
            ArmError::FieldCount,
        ),
        // A single field whose type is not a path is refused.
        v.fields is Unnamed && v.fields->0@.len() == 1 && v.fields->0@[0] is Other ==> r == Err::<
            DispatchArm,
            ArmError,
        >(ArmError::NotPathType),
        // A single path-typed field sends the variant to that path's module.
        v.fields is Unnamed && v.fields->0@.len() == 1 && v.fields->0@[0] is Path ==> (r matches Ok(a)
            && a.variant@ == v.name@ && a.module.deep_view() == v.fields->0@[0]->0.deep_view().drop_last()),
{
    match &v.fields {
        VariantFields::Unnamed(fs) => {
            if fs.len() != 1 {
                return Err(ArmError::FieldCount);
            }
            match &fs[0] {
                FieldType::Path(segs) => Ok(
                    DispatchArm { variant: v.name.clone(), module: module_from_type_path(segs) },
                ),
                FieldType::Other => Err(ArmError::NotPathType),
            }
        },
        _ => Err(ArmError::NotTupleVariant),
    }
}

/// The plan of the derived `dispatch`: one arm or error per variant, in
/// order; an item that is not an enum is refused as a whole.
pub fn plan_dispatch(item: &ItemShape) -> (r: Result<Vec<Result<DispatchArm, ArmError>>, DispatchError>)
    requires
        item matches ItemShape::Enum(vs) ==> forall|i: int| 0 <= i < vs@.len() ==> module_nameable(#[trigger] vs@[i]),
    ensures
        item is Other <==> r is Err,
        item matches ItemShape::Enum(vs) ==> r matches Ok(arms) && arms@.len() == vs@.len() && forall|i: int|
            0 <= i < vs@.len() ==> arm_fits(#[trigger] vs@[i], arms@[i]),
        // A tuple variant with other than one field gets the field-count error
        // in its place.
        item matches ItemShape::Enum(vs) ==> r matches Ok(arms) && forall|i: int|
            0 <= i < vs@.len() && (#[trigger] vs@[i]).fields is Unnamed && vs@[i].fields->0@.len()
                != 1 ==> arms@[i] == Err::<DispatchArm, ArmError>(ArmError::FieldCount),
        // A variant with one path-typed field is sent to that path's module.
        item matches ItemShape::Enum(vs) ==> r matches Ok(arms) && forall|i: int|
            0 <= i < vs@.len() && (#[trigger] vs@[i]).fields is Unnamed && vs@[i].fields->0@.len() == 1
                && vs@[i].fields->0@[0] is Path ==> (arms@[i] matches Ok(a) && a.variant@ == vs@[i].name@
                && a.module.deep_view() == vs@[i].fields->0@[0]->0.deep_view().drop_last()),
{
    match item {
        ItemShape::Enum(vs) => {
            let mut arms: Vec<Result<DispatchArm, ArmError>> = Vec::new();
            let mut i: usize = 0;
            while i < vs.len()
                invariant
                    i <= vs@.len(),
                    arms@.len() == i,
                    forall|j: int| 0 <= j < vs@.len() ==> module_nameable(#[trigger] vs@[j]),
                    forall|j: int| 0 <= j < i ==> arm_fits(#[trigger] vs@[j], arms@[j]),
                    forall|j: int|
                        0 <= j < i && (#[trigger] vs@[j]).fields is Unnamed && vs@[j].fields->0@.len()
                            != 1 ==> arms@[j] == Err::<DispatchArm, ArmError>(ArmError::FieldCount),
                    forall|j: int|
                        0 <= j < i && (#[trigger] vs@[j]).fields is Unnamed && vs@[j].fields->0@.len() == 1
                            && vs@[j].fields->0@[0] is Path ==> (arms@[j] matches Ok(a) && a.variant@
                            == vs@[j].name@ && a.module.deep_view() == vs@[j].fields->0@[0]->0.deep_view().drop_last()),
                decreases vs@.len() - i,
            {
                let arm = plan_arm(&vs[i]);
                arms.push(arm);
                i += 1;
            }
            Ok(arms)
        },
        ItemShape::Other => Err(DispatchError::NotEnum),
    }
}

} // verus!
