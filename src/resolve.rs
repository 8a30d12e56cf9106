//! Resolution of a method's message type to a path usable from wrapper code.
use vstd::prelude::*;
use vstd::string::*;
use crate::text::{has_prefix, starts_with, same_text};

verus! {

/// Protocol types of the `google.protobuf` package are the well-known types.
pub open spec fn is_well_known(proto_type: Seq<char>) -> bool {
    has_prefix(proto_type, ".google.protobuf"@)
}

/// Generated type names that are not paths and are used as they are.
pub open spec fn is_literal_type(rust_type: Seq<char>) -> bool {
    rust_type == "()"@
}

/// Whether the generated type name is used verbatim: a well-known type whose
/// compilation is off, an absolute path, a literal type, or a path from the
/// crate root.
pub open spec fn used_verbatim(
    proto_type: Seq<char>,
    rust_type: Seq<char>,
    compile_well_known_types: bool,
) -> bool {
    (is_well_known(proto_type) && !compile_well_known_types) || has_prefix(rust_type, "::"@)
        || is_literal_type(rust_type) || has_prefix(rust_type, "crate::"@)
}

/// The reference to a generated type seen from a module nested in `scope`.
pub open spec fn resolved_type(
    proto_type: Seq<char>,
    rust_type: Seq<char>,
    scope: Seq<char>,
    compile_well_known_types: bool,
) -> Seq<char> {
    if used_verbatim(proto_type, rust_type, compile_well_known_types) {
        rust_type
    } else {
        scope + "::"@ + rust_type
    }
}

/// Resolves `rust_type`, the generated name of the protocol type `proto_type`,
/// to a path usable from a module nested in `scope`.
pub fn resolve_type_path(
    proto_type: &str,
    rust_type: &str,
    scope: &str,
    compile_well_known_types: bool,
) -> (r: String)
    ensures
        r@ == resolved_type(proto_type@, rust_type@, scope@, compile_well_known_types),
{
    if (starts_with(proto_type, ".google.protobuf") && !compile_well_known_types)
        || starts_with(rust_type, "::") || same_text(rust_type, "()")
        || starts_with(rust_type, "crate::") {
        String::from_str(rust_type)
    } else {
        let mut r = String::from_str(scope);
        r.append("::");
        r.append(rust_type);
        r
    }
}

/// Well-known types with their compilation off keep their generated name;
/// other types that are neither absolute, literal nor crate-rooted are
/// qualified by the scope; a literal type such as `()` passes unchanged.
pub proof fn lemma_resolution_cases(
    proto_type: Seq<char>,
    rust_type: Seq<char>,
    scope: Seq<char>,
    compile_well_known_types: bool,
)
    ensures
        is_well_known(proto_type) && !compile_well_known_types ==> resolved_type(
            proto_type,
            rust_type,
            scope,
            compile_well_known_types,
        ) == rust_type,
        !used_verbatim(proto_type, rust_type, compile_well_known_types) ==> resolved_type(
            proto_type,
            rust_type,
            scope,
            compile_well_known_types,
        ) == scope + "::"@ + rust_type,
        is_literal_type(rust_type) ==> resolved_type(
            proto_type,
            rust_type,
            scope,
            compile_well_known_types,
        ) == rust_type,
{
}

} // verus!
