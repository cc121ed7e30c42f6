use vstd::prelude::*;

use crate::errors::Error;

verus! {

/// What the harness reads of one resolved package: its validated name and
/// whether the workspace marks it as a library.
pub struct PackageInfo {
    pub name: String,
    pub is_library: bool,
}

/// Whether the workspace holds some library package.
pub open spec fn has_library(s: Seq<PackageInfo>) -> bool {
    exists|j: int| 0 <= j < s.len() && (#[trigger] s[j]).is_library
}

/// Whether the workspace holds two library packages.
pub open spec fn two_libraries(s: Seq<PackageInfo>) -> bool {
    exists|j: int, k: int|
        0 <= j < k < s.len() && (#[trigger] s[j]).is_library && (#[trigger] s[k]).is_library
}

/// Picks the package whose exported functions are compiled: exactly one
/// package of the workspace must be marked as a library.  A workspace
/// holding none cannot export functions, and one holding several leaves
/// the export surface ambiguous; either way resolution fails before any
/// checking or compilation runs.
#[verifier::loop_isolation(false)]
pub fn select_library(packages: &Vec<PackageInfo>) -> (r: Result<usize, Error>)
    ensures
        r matches Ok(i) ==> i < packages@.len() && packages@[i as int].is_library && (forall|
            j: int,
        | 0 <= j < packages@.len() && j != i ==> !packages@[j].is_library),
        r is Ok <==> has_library(packages@) && !two_libraries(packages@),
        r matches Err(e) ==> e is ResolutionError,
        r matches Err(e) ==> (!has_library(packages@) ==> e.text() == "no lib pkg"@),
        r matches Err(e) ==> (two_libraries(packages@) ==> e.text() == "more than one lib pkg"@),
{
    let mut found: Option<usize> = None;
    let mut i: usize = 0;
    while i < packages.len()
        invariant
            i <= packages@.len(),
            match found {
                None => forall|j: int| 0 <= j < i ==> !packages@[j].is_library,
                Some(f) => f < i && packages@[f as int].is_library && (forall|j: int|
                    0 <= j < i && j != f ==> !packages@[j].is_library),
            },
        decreases packages@.len() - i,
    {
        if packages[i].is_library {
            match found {
                None => {
                    found = Some(i);
                },
                Some(f) => {
                    proof {
                        assert(0 <= f < i < packages@.len() && packages@[f as int].is_library
                            && packages@[i as int].is_library);
                        assert(two_libraries(packages@));
                    }
                    return Err(Error::ResolutionError("more than one lib pkg".to_string()));
                },
            }
        }
        i = i + 1;
    }
    match found {
        None => {
            proof {
                assert(!has_library(packages@));
            }
            Err(Error::ResolutionError("no lib pkg".to_string()))
        },
        Some(f) => {
            proof {
                assert(packages@[f as int].is_library);
                assert(has_library(packages@));
                assert(!two_libraries(packages@)) by {
                    if two_libraries(packages@) {
                        let (j, k) = choose|j: int, k: int|
                            0 <= j < k < packages@.len() && (#[trigger] packages@[j]).is_library
                                && (#[trigger] packages@[k]).is_library;
                        assert(j != f || k != f);
                        assert(false);
                    }
                }
            }
            Ok(f)
        },
    }
}

/// Looks the requested function up in the exported set by name, after the
/// whole export surface has been compiled.  A name absent from the set is
/// a `FunctionNotFound`, distinct from any compile failure, never a
/// silent miss.
pub fn select_function(names: &Vec<String>, target: &String) -> (r: Result<usize, Error>)
    ensures
        r matches Ok(i) ==> i < names@.len() && names@[i as int]@ == target@ && (forall|j: int|
            0 <= j < i ==> names@[j]@ != target@),
        r is Err <==> (forall|j: int| 0 <= j < names@.len() ==> names@[j]@ != target@),
        r matches Err(e) ==> e is FunctionNotFound && e.text() == "no fn_name"@,
{
    let mut i: usize = 0;
    while i < names.len()
        invariant
            i <= names@.len(),
            forall|j: int| 0 <= j < i ==> names@[j]@ != target@,
        decreases names@.len() - i,
    {
        if names[i] == *target {
            return Ok(i);
        }
        i = i + 1;
    }
    Err(Error::FunctionNotFound("no fn_name".to_string()))
}

/// Whether every per-function compilation in the set succeeded.
pub open spec fn all_compiled<T>(rs: Seq<(String, Result<T, String>)>) -> bool {
    forall|j: int| 0 <= j < rs.len() ==> rs[j].1 is Ok
}

/// Whether `e` reports the first failed compilation of the set: the
/// failing function's diagnostic text, every earlier function compiled.
pub open spec fn reports_first_failure<T>(rs: Seq<(String, Result<T, String>)>, e: Error) -> bool {
    exists|j: int|
        0 <= j < rs.len() && (#[trigger] rs[j].1) is Err && e.text() == rs[j].1->Err_0@ && (forall|
            k: int,
        | 0 <= k < j ==> rs[k].1 is Ok)
}

/// Collects per-function compilation results, in declaration order, into
/// the exported set.  Compiling the export surface is all-or-nothing: the
/// first failure aborts the whole set as a `CompileError` carrying that
/// function's diagnostics.
#[verifier::loop_isolation(false)]
pub fn collect_programs<T>(results: Vec<(String, Result<T, String>)>) -> (r: Result<
    Vec<(String, T)>,
    Error,
>)
    ensures
        r is Ok <==> all_compiled(results@),
        r matches Ok(out) ==> out@.len() == results@.len() && (forall|j: int|
            0 <= j < results@.len() ==> out@[j].0 == results@[j].0 && out@[j].1 == results@[
                j
            ].1->Ok_0),
        r matches Err(e) ==> e is CompileError && reports_first_failure(results@, e),
{
    let ghost orig = results@;
    let mut rest = results;
    let mut out: Vec<(String, T)> = Vec::new();
    while rest.len() > 0
        invariant
            out@.len() + rest@.len() == orig.len(),
            rest@ == orig.skip(out@.len() as int),
            forall|j: int|
                0 <= j < out@.len() ==> orig[j].1 is Ok && out@[j].0 == orig[j].0 && out@[j].1
                    == orig[j].1->Ok_0,
        decreases rest@.len(),
    {
        let ghost done = out@.len() as int;
        let ghost prev = rest@;
        proof {
            assert(prev[0] == orig[done]);
        }
        let (name, res) = rest.remove(0);
        proof {
            assert(rest@ =~= prev.drop_first());
            assert(rest@ =~= orig.skip(done + 1));
        }
        match res {
            Ok(t) => {
                out.push((name, t));
            },
            Err(msg) => {
                let err = Error::CompileError(msg);
                proof {
                    assert(orig[done].1 is Err);
                    assert(err.text() == orig[done].1->Err_0@);
                    assert(reports_first_failure(orig, err));
                    assert(!all_compiled(orig));
                }
                return Err(err);
            },
        }
    }
    proof {
        assert(rest@ =~= Seq::<(String, Result<T, String>)>::empty());
    }
    Ok(out)
}

} // verus!
