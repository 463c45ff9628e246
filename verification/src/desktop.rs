//! The desktop front end's rules for which folders it may act on, and the
//! errors it reports itself.
use crate::api::ApiError;
use crate::config::strings_view;
use crate::text::str_eq;
use vstd::prelude::*;

verus! {

/// Whether a path lies at or below another, component by component.
pub uninterp spec fn path_starts_with_result(path: Seq<char>, base: Seq<char>) -> bool;

/// `std::path::Path::starts_with`, which compares whole components. Its
/// result is a function of the two paths alone, and is named, not stated.
#[verifier::external_body]
fn path_starts_with(path: &str, base: &str) -> (r: bool)
    ensures
        r == path_starts_with_result(path@, base@),
{
    std::path::Path::new(path).starts_with(std::path::Path::new(base))
}

/// An error about a path the user chose, as the desktop reports it.
pub fn path_error(message: &str, field: &str) -> (r: ApiError)
    ensures
        r.kind@ == "usage"@,
        r.message@ == message@,
        r.exit_code == 2,
        r.field is Some && r.field->Some_0@ == field@,
{
    ApiError { kind: "usage".to_string(), message: message.to_string(), exit_code: 2, field: Some(field.to_string()) }
}

/// An internal failure of the desktop itself.
pub fn internal_error(message: &str) -> (r: ApiError)
    ensures
        r.kind@ == "dependency"@,
        r.message@ == message@,
        r.exit_code == 3,
        r.field is None,
{
    ApiError { kind: "dependency".to_string(), message: message.to_string(), exit_code: 3, field: None }
}

fn chosen(approved: &Vec<String>, canonical: &str) -> (r: bool)
    ensures
        r == strings_view(*approved).contains(canonical@),
{
    let ghost s = strings_view(*approved);
    let mut i: usize = 0;
    while i < approved.len()
        invariant
            i <= approved.len(),
            s == strings_view(*approved),
            forall|j: int| 0 <= j < i ==> s[j] != canonical@,
        decreases approved.len() - i,
    {
        if str_eq(approved[i].as_str(), canonical) {
            assert(s[i as int] == canonical@);
            return true;
        }
        i = i + 1;
    }
    false
}

/// A folder is usable in this session only once the user has chosen it.
pub fn session_approval(approved: &Vec<String>, canonical: &str) -> (r: Result<(), ApiError>)
    ensures
        r is Ok <==> strings_view(*approved).contains(canonical@),
        r is Err ==> r->Err_0.kind@ == "usage"@ && r->Err_0.message@
            == "Choose this folder in GitPersona before using it."@ && r->Err_0.exit_code == 2
            && r->Err_0.field is Some && r->Err_0.field->Some_0@ == "path"@,
{
    if chosen(approved, canonical) {
        Ok(())
    } else {
        Err(path_error("Choose this folder in GitPersona before using it.", "path"))
    }
}

/// Some approved root contains the path.
pub open spec fn under_a_root(canonical: Seq<char>, roots: Seq<Seq<char>>) -> bool {
    exists|i: int| 0 <= i < roots.len() && path_starts_with_result(canonical, #[trigger] roots[i])
}

/// A repository may be acted on when the user chose it in this session or
/// it lies under an approved repository root.
pub fn repository_approval(approved: &Vec<String>, roots: &Vec<String>, canonical: &str) -> (r: Result<
    (),
    ApiError,
>)
    ensures
        r is Ok <==> (strings_view(*approved).contains(canonical@) || under_a_root(
            canonical@,
            strings_view(*roots),
        )),
        r is Err ==> r->Err_0.kind@ == "usage"@ && r->Err_0.message@
            == "This repository is outside the folders approved in GitPersona."@
            && r->Err_0.exit_code == 2 && r->Err_0.field is Some && r->Err_0.field->Some_0@
            == "repository"@,
{
    if chosen(approved, canonical) {
        return Ok(());
    }
    let ghost rs = strings_view(*roots);
    let mut i: usize = 0;
    while i < roots.len()
        invariant
            i <= roots.len(),
            rs == strings_view(*roots),
            forall|j: int| 0 <= j < i ==> !path_starts_with_result(canonical@, #[trigger] rs[j]),
        decreases roots.len() - i,
    {
        if path_starts_with(canonical, roots[i].as_str()) {
            assert(path_starts_with_result(canonical@, rs[i as int]));
            return Ok(());
        }
        i = i + 1;
    }
    Err(path_error("This repository is outside the folders approved in GitPersona.", "repository"))
}

} // verus!
