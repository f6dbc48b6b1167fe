//! Plain models of the pieces of Rust syntax that the derive and attribute
//! macros read: paths, attributes and types. A caller builds them from the
//! parsed item; the ids they carry let it find its own syntax nodes again.
use crate::tokens::{chars_eq_str, SpanId};
use vstd::prelude::*;

verus! {

/// One segment of a path: its identifier, and whether generic arguments follow it.
pub struct SegmentName {
    pub ident: Vec<char>,
    pub has_arguments: bool,
}

/// A path such as `::a::b<T>::c`, as far as `Path::is_ident` looks at it.
pub struct PathModel {
    pub leading_colon: bool,
    pub segments: Vec<SegmentName>,
}

/// Whether a path is the single identifier `name`: no leading `::`, one
/// segment, no generic arguments.
pub open spec fn path_is_ident(p: PathModel, name: Seq<char>) -> bool {
    &&& !p.leading_colon
    &&& p.segments@.len() == 1
    &&& !p.segments@[0].has_arguments
    &&& p.segments@[0].ident@ == name
}

/// Whether a path is the single identifier `name`.
pub fn is_ident(p: &PathModel, name: &str) -> (r: bool)
    ensures
        r == path_is_ident(*p, name@),
{
    !p.leading_colon && p.segments.len() == 1 && !p.segments[0].has_arguments && chars_eq_str(
        &p.segments[0].ident,
        name,
    )
}

} // verus!

verus! {

/// A type, as far as the macros read it; `id` names the caller's syntax node.
///
/// A path type keeps its segments; any other type keeps, in the order a
/// syntax visitor meets them, the types and paths inside it (a path met
/// outside a type position, such as in an array length, is kept as a path
/// type without `qself`).
pub enum TypeModel {
    Path {
        id: usize,
        qself: Option<Box<TypeModel>>,
        leading_colon: bool,
        segments: Vec<SegmentModel>,
    },
    Other { id: usize, children: Vec<TypeModel> },
}

/// A segment of a path in a type: its identifier and its generic arguments.
pub struct SegmentModel {
    pub ident: Vec<char>,
    pub args: ArgsModel,
}

/// The generic arguments after a path segment: none, `<...>`, or `(...) -> ...`
/// (its input and output types).
pub enum ArgsModel {
    Plain,
    AngleBracketed { args: Vec<GenericArgModel> },
    Parenthesized { types: Vec<TypeModel> },
}

/// One generic argument: a type, or anything else (a lifetime, a constant,
/// a binding).
pub enum GenericArgModel {
    Type { ty: TypeModel },
    Other,
}

/// The id of a type's syntax node.
pub open spec fn type_id(t: TypeModel) -> usize {
    match t {
        TypeModel::Path { id, .. } => id,
        TypeModel::Other { id, .. } => id,
    }
}

/// Whether the segments `segs` name the standard item `name`: written
/// `name`, `std::module::name` or `krate::module::name`, no segment before
/// the last having generic arguments.
pub open spec fn names_std_item(
    segs: Seq<SegmentModel>,
    krate: Seq<char>,
    module: Seq<char>,
    name: Seq<char>,
) -> bool {
    &&& segs.len() > 0
    &&& segs.last().ident@ == name
    &&& segs.len() == 1 || {
        &&& segs.len() == 3
        &&& segs[0].args is Plain
        &&& segs[1].args is Plain
        &&& segs[0].ident@ == "std"@ || segs[0].ident@ == krate
        &&& segs[1].ident@ == module
    }
}

/// The type `T` when `t` is written `Name<T>`, `Name` being the standard
/// item `krate::module::Name` (a leading `::` allowed) and `T` its single
/// argument.
pub open spec fn single_type_argument(
    t: TypeModel,
    krate: Seq<char>,
    module: Seq<char>,
    name: Seq<char>,
) -> Option<usize> {
    match t {
        TypeModel::Path { qself, segments, .. } => if qself is None && names_std_item(
            segments@,
            krate,
            module,
            name,
        ) && (segments@.last().args matches ArgsModel::AngleBracketed { args } && args@.len() == 1
            && args@[0] is Type) {
            Some(type_id(segments@.last().args->args@[0]->ty))
        } else {
            None
        },
        _ => None,
    }
}

/// The id of a type's syntax node.
pub fn type_id_of(t: &TypeModel) -> (r: usize)
    ensures
        r == type_id(*t),
{
    match t {
        TypeModel::Path { id, .. } => *id,
        TypeModel::Other { id, .. } => *id,
    }
}

/// Whether the segments name the standard item `krate::module::name`.
fn names_std_item_of(segs: &Vec<SegmentModel>, krate: &str, module: &str, name: &str) -> (r: bool)
    ensures
        r == names_std_item(segs@, krate@, module@, name@),
{
    let n = segs.len();
    if n == 0 || !chars_eq_str(&segs[n - 1].ident, name) {
        return false;
    }
    if n == 1 {
        return true;
    }
    n == 3 && matches!(segs[0].args, ArgsModel::Plain) && matches!(segs[1].args, ArgsModel::Plain) && (
    chars_eq_str(&segs[0].ident, "std") || chars_eq_str(&segs[0].ident, krate)) && chars_eq_str(
        &segs[1].ident,
        module,
    )
}

/// The type `T` when `t` is written `Name<T>`, `Name` being the standard
/// item `krate::module::Name`.
pub fn single_type_argument_of(t: &TypeModel, krate: &str, module: &str, name: &str) -> (r: Option<usize>)
    ensures
        r == single_type_argument(*t, krate@, module@, name@),
{
    match t {
        TypeModel::Path { qself, segments, .. } => {
            if qself.is_none() && names_std_item_of(segments, krate, module, name) {
                match &segments[segments.len() - 1].args {
                    ArgsModel::AngleBracketed { args } => {
                        if args.len() == 1 {
                            match &args[0] {
                                GenericArgModel::Type { ty } => Some(type_id_of(ty)),
                                _ => None,
                            }
                        } else {
                            None
                        }
                    },
                    _ => None,
                }
            } else {
                None
            }
        },
        _ => None,
    }
}

} // verus!
