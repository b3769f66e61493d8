//! Command-line arguments of the MMR builder, parsed and dispatched
//! without any ambient state.

use vstd::prelude::*;

use crate::common::parse_msg;
use crate::common::parse_u64;
use crate::common::parse_u64_spec;
use crate::common::ParseNumError;
use crate::mmr::str_views;
use vstd::string::StringExecFns;

verus! {

/// The arguments of the MMR builder.
#[derive(Debug)]
pub struct Args {
    /// Batch size for processing blocks.
    pub batch_size: u64,
    /// Number of batches to process; unset means until block 0.
    pub num_batches: Option<u64>,
    /// Skip proof verification.
    pub skip_proof: bool,
    /// Path to the environment file.
    pub env_file: String,
    /// Start building from this block number; unset means the finalized
    /// head.
    pub start_block: Option<u64>,
    /// Start building from the latest persisted MMR block.
    pub from_latest: bool,
}

/// The mathematical content of parsed arguments.
pub struct ArgsModel {
    pub batch_size: u64,
    pub num_batches: Option<u64>,
    pub skip_proof: bool,
    pub env_file: Seq<char>,
    pub start_block: Option<u64>,
    pub from_latest: bool,
}

/// Why parsing failed, over mathematical strings.
pub enum ArgsErrV {
    Unknown(Seq<char>),
    MissingValue(Seq<char>),
    InvalidValue(Seq<char>, ParseNumError),
}

/// Why parsing failed.
#[derive(Debug)]
pub enum ArgsError {
    /// A token is not a known flag.
    UnknownArgument(String),
    /// A value flag came last, with nothing after it.
    MissingValue(String),
    /// A numeric flag's value did not parse; carries the flag and the
    /// parse error.
    InvalidValue(String, ParseNumError),
}

impl ArgsError {
    /// The error text, naming the flag and the cause.
    pub fn message(&self) -> (r: String)
        ensures
            *self matches ArgsError::UnknownArgument(f) ==> r@ == "unexpected argument: "@ + f@,
            *self matches ArgsError::MissingValue(f) ==> r@ == "missing value for "@ + f@,
            *self matches ArgsError::InvalidValue(f, k) ==> r@ == f@ + ": "@ + parse_msg(k),
    {
        match self {
            ArgsError::UnknownArgument(f) => {
                let s = String::from_str("unexpected argument: ");
                s.concat(f.as_str())
            },
            ArgsError::MissingValue(f) => {
                let s = String::from_str("missing value for ");
                s.concat(f.as_str())
            },
            ArgsError::InvalidValue(f, k) => {
                let s = f.clone().concat(": ");
                let m = k.message();
                proof {
                    assert(m@ == parse_msg(*k));
                }
                s.concat(m.as_str())
            },
        }
    }
}

/// Whether an executable error carries a model's content.
pub open spec fn err_matches(e: ArgsError, ev: ArgsErrV) -> bool {
    match (e, ev) {
        (ArgsError::UnknownArgument(f), ArgsErrV::Unknown(w)) => f@ == w,
        (ArgsError::MissingValue(f), ArgsErrV::MissingValue(w)) => f@ == w,
        (ArgsError::InvalidValue(f, k), ArgsErrV::InvalidValue(w, k2)) => f@ == w && k == k2,
        _ => false,
    }
}

/// The mathematical content of executable arguments.
pub open spec fn args_model(a: Args) -> ArgsModel {
    ArgsModel {
        batch_size: a.batch_size,
        num_batches: a.num_batches,
        skip_proof: a.skip_proof,
        env_file: a.env_file@,
        start_block: a.start_block,
        from_latest: a.from_latest,
    }
}

/// The defaults: batch size 1024, environment file `.env`, everything
/// else off.
pub open spec fn default_args() -> ArgsModel {
    ArgsModel {
        batch_size: 1024,
        num_batches: None,
        skip_proof: false,
        env_file: ".env"@,
        start_block: None,
        from_latest: false,
    }
}

/// Parses the tokens after the program name, folding flags into the
/// current model; the first offending token wins.
pub open spec fn parse_rec(rest: Seq<Seq<char>>, cur: ArgsModel) -> Result<ArgsModel, ArgsErrV>
    decreases rest.len(),
{
    if rest.len() == 0 {
        Ok(cur)
    } else {
        let w = rest.first();
        if w == "--batch-size"@ || w == "-b"@ {
            if rest.len() < 2 {
                Err(ArgsErrV::MissingValue(w))
            } else {
                match parse_u64_spec(rest[1]) {
                    Ok(v) => parse_rec(
                        rest.skip(2),
                        ArgsModel {
                            batch_size: v,
                            num_batches: cur.num_batches,
                            skip_proof: cur.skip_proof,
                            env_file: cur.env_file,
                            start_block: cur.start_block,
                            from_latest: cur.from_latest,
                        },
                    ),
                    Err(e) => Err(ArgsErrV::InvalidValue(w, e)),
                }
            }
        } else if w == "--num-batches"@ || w == "-n"@ {
            if rest.len() < 2 {
                Err(ArgsErrV::MissingValue(w))
            } else {
                match parse_u64_spec(rest[1]) {
                    Ok(v) => parse_rec(
                        rest.skip(2),
                        ArgsModel {
                            batch_size: cur.batch_size,
                            num_batches: Some(v),
                            skip_proof: cur.skip_proof,
                            env_file: cur.env_file,
                            start_block: cur.start_block,
                            from_latest: cur.from_latest,
                        },
                    ),
                    Err(e) => Err(ArgsErrV::InvalidValue(w, e)),
                }
            }
        } else if w == "--skip-proof"@ || w == "-p"@ {
            parse_rec(
                rest.skip(1),
                ArgsModel {
                    batch_size: cur.batch_size,
                    num_batches: cur.num_batches,
                    skip_proof: true,
                    env_file: cur.env_file,
                    start_block: cur.start_block,
                    from_latest: cur.from_latest,
                },
            )
        } else if w == "--env-file"@ || w == "-e"@ {
            if rest.len() < 2 {
                Err(ArgsErrV::MissingValue(w))
            } else {
                parse_rec(
                    rest.skip(2),
                    ArgsModel {
                        batch_size: cur.batch_size,
                        num_batches: cur.num_batches,
                        skip_proof: cur.skip_proof,
                        env_file: rest[1],
                        start_block: cur.start_block,
                        from_latest: cur.from_latest,
                    },
                )
            }
        } else if w == "--start-block"@ || w == "-s"@ {
            if rest.len() < 2 {
                Err(ArgsErrV::MissingValue(w))
            } else {
                match parse_u64_spec(rest[1]) {
                    Ok(v) => parse_rec(
                        rest.skip(2),
                        ArgsModel {
                            batch_size: cur.batch_size,
                            num_batches: cur.num_batches,
                            skip_proof: cur.skip_proof,
                            env_file: cur.env_file,
                            start_block: Some(v),
                            from_latest: cur.from_latest,
                        },
                    ),
                    Err(e) => Err(ArgsErrV::InvalidValue(w, e)),
                }
            }
        } else if w == "--from-latest"@ || w == "-l"@ {
            parse_rec(
                rest.skip(1),
                ArgsModel {
                    batch_size: cur.batch_size,
                    num_batches: cur.num_batches,
                    skip_proof: cur.skip_proof,
                    env_file: cur.env_file,
                    start_block: cur.start_block,
                    from_latest: true,
                },
            )
        } else {
            Err(ArgsErrV::Unknown(w))
        }
    }
}

/// What parsing a full argument vector yields: the first token is the
/// program name.
pub open spec fn spec_parse_args(args: Seq<Seq<char>>) -> Result<ArgsModel, ArgsErrV> {
    if args.len() == 0 {
        Ok(default_args())
    } else {
        parse_rec(args.drop_first(), default_args())
    }
}

/// Whether two strings hold the same characters.
pub fn str_eq(a: &str, b: &str) -> (r: bool)
    ensures
        r == (a@ == b@),
{
    let alen = a.unicode_len();
    let blen = b.unicode_len();
    if alen != blen {
        return false;
    }
    let mut i: usize = 0;
    while i < alen
        invariant
            alen == a@.len(),
            alen == b@.len(),
            i <= alen,
            forall|j: int| 0 <= j < i ==> a@[j] == b@[j],
        decreases alen - i,
    {
        if a.get_char(i) != b.get_char(i) {
            return false;
        }
        i += 1;
    }
    proof {
        assert(a@ =~= b@);
    }
    true
}

impl Args {
    /// Parses an argument vector, the program name first, against the
    /// builder's flags.
    pub fn try_parse_from(args: &Vec<String>) -> (r: Result<Args, ArgsError>)
        ensures
            r matches Ok(a) ==> (spec_parse_args(str_views(args@)) matches Ok(m) && args_model(a)
                == m),
            r matches Err(e) ==> (spec_parse_args(str_views(args@)) matches Err(ev)
                && err_matches(e, ev)),
    {
        let ghost views = str_views(args@);
        let mut batch_size: u64 = 1024;
        let mut num_batches: Option<u64> = None;
        let mut skip_proof: bool = false;
        let mut env_file: String = String::from_str(".env");
        let mut start_block: Option<u64> = None;
        let mut from_latest: bool = false;
        if args.len() == 0 {
            return Ok(Args { batch_size, num_batches, skip_proof, env_file, start_block, from_latest });
        }
        let mut i: usize = 1;
        proof {
            assert(views.skip(1) =~= views.drop_first());
            assert(views[0] == args@[0]@);
        }
        while i < args.len()
            invariant
                views == str_views(args@),
                1 <= i <= args@.len(),
                spec_parse_args(views) == parse_rec(
                    views.skip(i as int),
                    ArgsModel {
                        batch_size,
                        num_batches,
                        skip_proof,
                        env_file: env_file@,
                        start_block,
                        from_latest,
                    },
                ),
            decreases args@.len() - i,
        {
            let ghost rest = views.skip(i as int);
            proof {
                assert(rest.first() == args@[i as int]@);
                assert(rest.len() == args@.len() - i);
                if rest.len() >= 2 {
                    assert(rest[1] == args@[i as int + 1]@);
                }
                assert(rest.skip(1) =~= views.skip(i as int + 1));
                if rest.len() >= 2 {
                    assert(rest.skip(2) =~= views.skip(i as int + 2));
                }
            }
            let w = &args[i];
            if str_eq(w.as_str(), "--batch-size") || str_eq(w.as_str(), "-b") {
                if i + 1 >= args.len() {
                    return Err(ArgsError::MissingValue(w.clone()));
                }
                match parse_u64(args[i + 1].as_str()) {
                    Ok(v) => {
                        batch_size = v;
                        i += 2;
                    },
                    Err(e) => {
                        return Err(ArgsError::InvalidValue(w.clone(), e));
                    },
                }
            } else if str_eq(w.as_str(), "--num-batches") || str_eq(w.as_str(), "-n") {
                if i + 1 >= args.len() {
                    return Err(ArgsError::MissingValue(w.clone()));
                }
                match parse_u64(args[i + 1].as_str()) {
                    Ok(v) => {
                        num_batches = Some(v);
                        i += 2;
                    },
                    Err(e) => {
                        return Err(ArgsError::InvalidValue(w.clone(), e));
                    },
                }
            } else if str_eq(w.as_str(), "--skip-proof") || str_eq(w.as_str(), "-p") {
                skip_proof = true;
                i += 1;
            } else if str_eq(w.as_str(), "--env-file") || str_eq(w.as_str(), "-e") {
                if i + 1 >= args.len() {
                    return Err(ArgsError::MissingValue(w.clone()));
                }
                env_file = args[i + 1].clone();
                i += 2;
            } else if str_eq(w.as_str(), "--start-block") || str_eq(w.as_str(), "-s") {
                if i + 1 >= args.len() {
                    return Err(ArgsError::MissingValue(w.clone()));
                }
                match parse_u64(args[i + 1].as_str()) {
                    Ok(v) => {
                        start_block = Some(v);
                        i += 2;
                    },
                    Err(e) => {
                        return Err(ArgsError::InvalidValue(w.clone(), e));
                    },
                }
            } else if str_eq(w.as_str(), "--from-latest") || str_eq(w.as_str(), "-l") {
                from_latest = true;
                i += 1;
            } else {
                return Err(ArgsError::UnknownArgument(w.clone()));
            }
        }
        proof {
            assert(views.skip(args@.len() as int) =~= Seq::<Seq<char>>::empty());
        }
        Ok(Args { batch_size, num_batches, skip_proof, env_file, start_block, from_latest })
    }
}

/// How a build run is driven, decided from the parsed options.
#[derive(Debug)]
pub enum BuildMode {
    /// From the latest persisted leaf, a fixed number of batches.
    FromLatestWithBatches(u64),
    /// From the latest persisted leaf to the head.
    FromLatest,
    /// From a given block, a fixed number of batches.
    FromBlockWithBatches(u64, u64),
    /// From a given block down to block 0.
    FromBlock(u64),
    /// A fixed number of batches from the finalized head.
    WithNumBatches(u64),
    /// From the finalized head down to block 0.
    FromFinalized,
}

/// Decides the build mode from the three optional flags; naming both
/// `--from-latest` and `--start-block` is rejected.
pub fn select_build_mode(from_latest: bool, start_block: Option<u64>, num_batches: Option<u64>) -> (
    r: Result<BuildMode, String>)
    ensures
        from_latest && start_block is Some ==> (r matches Err(m) && m@
            == "Cannot specify both --from-latest and --start-block"@),
        from_latest && start_block is None && num_batches is Some ==> r == Ok::<
            BuildMode,
            String,
        >(BuildMode::FromLatestWithBatches(num_batches->Some_0)),
        from_latest && start_block is None && num_batches is None ==> r == Ok::<
            BuildMode,
            String,
        >(BuildMode::FromLatest),
        !from_latest && start_block is Some && num_batches is Some ==> r == Ok::<
            BuildMode,
            String,
        >(BuildMode::FromBlockWithBatches(start_block->Some_0, num_batches->Some_0)),
        !from_latest && start_block is Some && num_batches is None ==> r == Ok::<
            BuildMode,
            String,
        >(BuildMode::FromBlock(start_block->Some_0)),
        !from_latest && start_block is None && num_batches is Some ==> r == Ok::<
            BuildMode,
            String,
        >(BuildMode::WithNumBatches(num_batches->Some_0)),
        !from_latest && start_block is None && num_batches is None ==> r == Ok::<
            BuildMode,
            String,
        >(BuildMode::FromFinalized),
{
    match (from_latest, start_block, num_batches) {
        (true, Some(_), _) => Err(
            String::from_str("Cannot specify both --from-latest and --start-block"),
        ),
        (true, None, Some(n)) => Ok(BuildMode::FromLatestWithBatches(n)),
        (true, None, None) => Ok(BuildMode::FromLatest),
        (false, Some(s), Some(n)) => Ok(BuildMode::FromBlockWithBatches(s, n)),
        (false, Some(s), None) => Ok(BuildMode::FromBlock(s)),
        (false, None, Some(n)) => Ok(BuildMode::WithNumBatches(n)),
        (false, None, None) => Ok(BuildMode::FromFinalized),
    }
}

} // verus!
