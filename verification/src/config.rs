//! Hierarchical configuration resolution.
//!
//! Options may be declared on an entry itself, on any of its enclosing
//! groups, in the process environment and on the command line. Resolution is
//! a pure function of those inputs and always picks the highest-precedence
//! declared value: command line, then environment, then the entry's own
//! declaration, then the enclosing groups from innermost to outermost, then
//! the built-in default.

use vstd::prelude::*;

verus! {

/// Default number of samples recorded per entry.
pub const DEFAULT_SAMPLE_COUNT: u32 = 100;

/// Default number of iterations per sample.
pub const DEFAULT_SAMPLE_SIZE: u32 = 1;

/// Options declared at one level of the hierarchy (or parsed from one
/// external source); every field is optional.
#[derive(Clone, Debug, Default)]
pub struct Options {
    pub sample_count: Option<u32>,
    pub sample_size: Option<u32>,
    pub ignore: Option<bool>,
    pub display_name: Option<String>,
}

impl Options {
    /// An option set that declares nothing.
    pub fn none() -> (r: Options)
        ensures
            r.sample_count.is_none(),
            r.sample_size.is_none(),
            r.ignore.is_none(),
            r.display_name.is_none(),
    {
        Options { sample_count: None, sample_size: None, ignore: None, display_name: None }
    }
}

/// The concrete option set one entry runs with, after merging every source.
#[derive(Clone, Debug)]
pub struct ResolvedOptions {
    pub sample_count: u32,
    pub sample_size: u32,
    pub ignore: bool,
    pub display_name: Option<String>,
}

/// The innermost declared value in a group chain (ordered innermost first),
/// or `None` when no group in the chain declares one.
pub open spec fn chain_first<T>(chain: Seq<Option<T>>) -> Option<T>
    decreases chain.len(),
{
    if chain.len() == 0 {
        Option::None
    } else if chain[0] is Some {
        chain[0]
    } else {
        chain_first(chain.drop_first())
    }
}

/// The resolved value of one option: the first declared value in precedence
/// order — command line, environment, the entry's own declaration, then the
/// group chain from innermost to outermost — or the default.
pub open spec fn resolved_value<T>(
    cli: Option<T>,
    env: Option<T>,
    own: Option<T>,
    chain: Seq<Option<T>>,
    default: T,
) -> T {
    if cli is Some {
        cli->0
    } else if env is Some {
        env->0
    } else if own is Some {
        own->0
    } else if chain_first(chain) is Some {
        chain_first(chain)->0
    } else {
        default
    }
}

/// Picks the innermost declared `u32` value in a group chain.
fn chain_first_u32(chain: &Vec<Option<u32>>) -> (r: Option<u32>)
    ensures
        r == chain_first(chain@),
{
    let mut idx: usize = 0;
    let ghost whole = chain@;
    proof {
        assert(chain@.subrange(0, chain@.len() as int) =~= chain@);
    }
    while idx < chain.len()
        invariant
            idx <= chain@.len(),
            whole == chain@,
            chain_first(whole) == chain_first(chain@.subrange(idx as int, chain@.len() as int)),
            forall|t: int| 0 <= t < idx ==> chain@[t] is None,
        decreases chain@.len() - idx,
    {
        proof {
            assert(chain@.subrange(idx as int, chain@.len() as int).drop_first() =~= chain@
                .subrange(idx as int + 1, chain@.len() as int));
        }
        if let Option::Some(v) = chain[idx] {
            return Option::Some(v);
        }
        idx = idx + 1;
    }
    proof {
        assert(chain@.subrange(chain@.len() as int, chain@.len() as int) =~= Seq::<
            Option<u32>,
        >::empty());
    }
    Option::None
}

/// Picks the innermost declared `bool` value in a group chain.
fn chain_first_bool(chain: &Vec<Option<bool>>) -> (r: Option<bool>)
    ensures
        r == chain_first(chain@),
{
    let mut idx: usize = 0;
    let ghost whole = chain@;
    proof {
        assert(chain@.subrange(0, chain@.len() as int) =~= chain@);
    }
    while idx < chain.len()
        invariant
            idx <= chain@.len(),
            whole == chain@,
            chain_first(whole) == chain_first(chain@.subrange(idx as int, chain@.len() as int)),
            forall|t: int| 0 <= t < idx ==> chain@[t] is None,
        decreases chain@.len() - idx,
    {
        proof {
            assert(chain@.subrange(idx as int, chain@.len() as int).drop_first() =~= chain@
                .subrange(idx as int + 1, chain@.len() as int));
        }
        if let Option::Some(v) = chain[idx] {
            return Option::Some(v);
        }
        idx = idx + 1;
    }
    proof {
        assert(chain@.subrange(chain@.len() as int, chain@.len() as int) =~= Seq::<
            Option<bool>,
        >::empty());
    }
    Option::None
}

/// Resolves one `u32` option through the full precedence chain.
pub fn resolve_u32(
    cli: Option<u32>,
    env: Option<u32>,
    own: Option<u32>,
    chain: &Vec<Option<u32>>,
    default: u32,
) -> (r: u32)
    ensures
        r == resolved_value(cli, env, own, chain@, default),
{
    if let Option::Some(v) = cli {
        v
    } else if let Option::Some(v) = env {
        v
    } else if let Option::Some(v) = own {
        v
    } else if let Option::Some(v) = chain_first_u32(chain) {
        v
    } else {
        default
    }
}

/// Resolves the `ignore` flag through the full precedence chain.
pub fn resolve_bool(
    cli: Option<bool>,
    env: Option<bool>,
    own: Option<bool>,
    chain: &Vec<Option<bool>>,
    default: bool,
) -> (r: bool)
    ensures
        r == resolved_value(cli, env, own, chain@, default),
{
    if let Option::Some(v) = cli {
        v
    } else if let Option::Some(v) = env {
        v
    } else if let Option::Some(v) = own {
        v
    } else if let Option::Some(v) = chain_first_bool(chain) {
        v
    } else {
        default
    }
}

/// A declared group option with no nearer override cascades to the entry:
/// when neither the command line, nor the environment, nor the entry itself
/// declares a value, the innermost declaring group decides; and any value
/// declared at a more specific level always wins over every group.
pub proof fn lemma_group_cascade<T>(
    cli: Option<T>,
    env: Option<T>,
    own: Option<T>,
    chain: Seq<Option<T>>,
    default: T,
    v: T,
)
    ensures
        (cli is None && env is None && own is None && chain.len() > 0 && chain[0] == Option::Some(
            v,
        )) ==> resolved_value(cli, env, own, chain, default) == v,
        own == Option::Some(v) && cli is None && env is None ==> resolved_value(
            cli,
            env,
            own,
            chain,
            default,
        ) == v,
        cli == Option::Some(v) ==> resolved_value(cli, env, own, chain, default) == v,
{
}

/// Merges every source of options into the concrete set one entry runs
/// with. `groups` is the chain of enclosing group declarations, innermost
/// first. The result is a pure function of the four inputs: each field is
/// the highest-precedence declared value, or the built-in default.
pub fn resolve(cli: &Options, env: &Options, own: &Options, groups: &Vec<Options>) -> (r:
    ResolvedOptions)
    ensures
        r.sample_count == resolved_value(
            cli.sample_count,
            env.sample_count,
            own.sample_count,
            groups@.map_values(|o: Options| o.sample_count),
            DEFAULT_SAMPLE_COUNT,
        ),
        r.sample_size == resolved_value(
            cli.sample_size,
            env.sample_size,
            own.sample_size,
            groups@.map_values(|o: Options| o.sample_size),
            DEFAULT_SAMPLE_SIZE,
        ),
        r.ignore == resolved_value(
            cli.ignore,
            env.ignore,
            own.ignore,
            groups@.map_values(|o: Options| o.ignore),
            false,
        ),
        r.display_name == (if own.display_name is Some {
            own.display_name
        } else {
            Option::<String>::None
        }),
{
    let mut count_chain: Vec<Option<u32>> = Vec::new();
    let mut size_chain: Vec<Option<u32>> = Vec::new();
    let mut ignore_chain: Vec<Option<bool>> = Vec::new();
    let mut idx: usize = 0;
    while idx < groups.len()
        invariant
            idx <= groups@.len(),
            count_chain@ =~= groups@.subrange(0, idx as int).map_values(
                |o: Options| o.sample_count,
            ),
            size_chain@ =~= groups@.subrange(0, idx as int).map_values(|o: Options| o.sample_size),
            ignore_chain@ =~= groups@.subrange(0, idx as int).map_values(|o: Options| o.ignore),
        decreases groups@.len() - idx,
    {
        count_chain.push(groups[idx].sample_count);
        size_chain.push(groups[idx].sample_size);
        ignore_chain.push(groups[idx].ignore);
        proof {
            assert(groups@.subrange(0, idx as int + 1) =~= groups@.subrange(0, idx as int).push(
                groups@[idx as int],
            ));
        }
        idx = idx + 1;
    }
    proof {
        assert(groups@.subrange(0, groups@.len() as int) =~= groups@);
    }
    let display_name: Option<String> = match &own.display_name {
        Option::Some(n) => Option::Some(n.clone()),
        Option::None => Option::None,
    };
    ResolvedOptions {
        sample_count: resolve_u32(
            cli.sample_count,
            env.sample_count,
            own.sample_count,
            &count_chain,
            DEFAULT_SAMPLE_COUNT,
        ),
        sample_size: resolve_u32(
            cli.sample_size,
            env.sample_size,
            own.sample_size,
            &size_chain,
            DEFAULT_SAMPLE_SIZE,
        ),
        ignore: resolve_bool(cli.ignore, env.ignore, own.ignore, &ignore_chain, false),
        display_name,
    }
}

} // verus!
