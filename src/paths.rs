//! Choice among candidate files: the first one that exists, as the caller
//! reports which do.
use vstd::prelude::*;

verus! {

/// The index of the first candidate from `i` on that is reported present
/// (`present` may be shorter than the candidates; missing reports count as
/// absent), or -1.
pub open spec fn first_present(present: Seq<bool>, n: int, i: int) -> int
    decreases n - i,
{
    if i < 0 || i >= n {
        -1
    } else if i < present.len() && present[i] {
        i
    } else {
        first_present(present, n, i + 1)
    }
}

pub proof fn lemma_first_present_range(present: Seq<bool>, n: int, i: int)
    requires
        0 <= i,
    ensures
        first_present(present, n, i) == -1 || i <= first_present(present, n, i) < n,
    decreases n - i,
{
    if i < n {
        lemma_first_present_range(present, n, i + 1);
    }
}

/// The first of `candidates` reported present.
pub fn pick_first(candidates: &Vec<String>, present: &Vec<bool>) -> (r: Option<String>)
    ensures
        ({
            let k = first_present(present@, candidates@.len() as int, 0);
            &&& r is Some <==> k >= 0
            &&& r is Some ==> r->Some_0 == candidates@[k]
        }),
{
    let mut i: usize = 0;
    while i < candidates.len()
        invariant
            i <= candidates.len(),
            first_present(present@, candidates@.len() as int, 0) == first_present(present@, candidates@.len() as int, i as int),
        decreases candidates.len() - i,
    {
        if i < present.len() && present[i] {
            return Some(candidates[i].clone());
        }
        i += 1;
    }
    None
}

/// Where contract metadata is looked for, in order.
pub fn metadata_candidates() -> (r: Vec<String>)
    ensures
        r@.len() == 3,
        r@[0]@ == "target/ink/metadata.json"@,
        r@[1]@ == "contract.json"@,
        r@[2]@ == "abi.json"@,
{
    vec![String::from_str("target/ink/metadata.json"), String::from_str("contract.json"), String::from_str("abi.json")]
}

/// The metadata file for a contract: the first of `metadata_candidates` that
/// exists, where `present` reports which do.
pub fn find_metadata_for_contract(present: &Vec<bool>) -> (r: Option<String>)
    ensures
        ({
            let k = first_present(present@, 3, 0);
            &&& r is Some <==> k >= 0
            &&& r is Some ==> r->Some_0@ == seq!["target/ink/metadata.json"@, "contract.json"@, "abi.json"@][k]
        }),
{
    let c = metadata_candidates();
    proof {
        lemma_first_present_range(present@, 3, 0);
        assert(c@.map_values(|x: String| x@) =~= seq!["target/ink/metadata.json"@, "contract.json"@, "abi.json"@]);
    }
    let r = pick_first(&c, present);
    proof {
        let k = first_present(present@, 3, 0);
        if k >= 0 {
            assert(c@.map_values(|x: String| x@)[k] == c@[k]@);
        }
    }
    r
}

/// Configuration file names, in order of preference.
pub fn config_candidates() -> (r: Vec<String>)
    ensures
        r@.len() == 6,
        r@[0]@ == "glinforge.config.ts"@,
        r@[1]@ == "glinforge.config.js"@,
        r@[2]@ == "glinforge.config.json"@,
        r@[3]@ == "glin-forge.config.ts"@,
        r@[4]@ == "glin-forge.config.js"@,
        r@[5]@ == "glin-forge.config.json"@,
{
    vec![
        String::from_str("glinforge.config.ts"),
        String::from_str("glinforge.config.js"),
        String::from_str("glinforge.config.json"),
        String::from_str("glin-forge.config.ts"),
        String::from_str("glin-forge.config.js"),
        String::from_str("glin-forge.config.json"),
    ]
}

/// The configuration file: the first of `config_candidates` that exists,
/// where `present` reports which do.
pub fn find_config_file(present: &Vec<bool>) -> (r: Option<String>)
    ensures
        ({
            let k = first_present(present@, 6, 0);
            let names = seq![
                "glinforge.config.ts"@,
                "glinforge.config.js"@,
                "glinforge.config.json"@,
                "glin-forge.config.ts"@,
                "glin-forge.config.js"@,
                "glin-forge.config.json"@,
            ];
            &&& r is Some <==> k >= 0
            &&& r is Some ==> r->Some_0@ == names[k]
        }),
{
    let c = config_candidates();
    let ghost names = seq![
        "glinforge.config.ts"@,
        "glinforge.config.js"@,
        "glinforge.config.json"@,
        "glin-forge.config.ts"@,
        "glin-forge.config.js"@,
        "glin-forge.config.json"@,
    ];
    proof {
        lemma_first_present_range(present@, 6, 0);
        assert(c@.map_values(|x: String| x@) =~= names);
    }
    let r = pick_first(&c, present);
    proof {
        let k = first_present(present@, 6, 0);
        if k >= 0 {
            assert(c@.map_values(|x: String| x@)[k] == c@[k]@);
        }
    }
    r
}

/// Why no build artifacts were found.
pub enum ArtifactError {
    /// The project has no `target/ink` directory: it was not built.
    NotBuilt,
    /// The build directory holds no code and metadata pair.
    NotFound,
}

/// The code and metadata files of a built contract: those found under
/// `artifacts/` if any, else those under `target/ink/`, which must exist.
pub fn find_contract_artifacts(
    in_artifacts: Option<(String, String)>,
    target_exists: bool,
    in_target: Option<(String, String)>,
) -> (r: Result<(String, String), ArtifactError>)
    ensures
        in_artifacts is Some ==> r == Ok::<(String, String), ArtifactError>(in_artifacts->Some_0),
        in_artifacts is None && !target_exists ==> r == Err::<(String, String), ArtifactError>(ArtifactError::NotBuilt),
        in_artifacts is None && target_exists ==> match in_target {
            Some(p) => r == Ok::<(String, String), ArtifactError>(p),
            None => r == Err::<(String, String), ArtifactError>(ArtifactError::NotFound),
        },
{
    match in_artifacts {
        Some(p) => Ok(p),
        None => if !target_exists {
            Err(ArtifactError::NotBuilt)
        } else {
            match in_target {
                Some(p) => Ok(p),
                None => Err(ArtifactError::NotFound),
            }
        },
    }
}

} // verus!
