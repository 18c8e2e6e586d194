//! Paths of the virtual filesystem and the argument strings of plugin instances.
use vstd::prelude::*;
use crate::text::{split_first, trim, split_once_char, trim_str, starts_with_str, char_len, char_at};

verus! {

/// The head of a path and, if there is a `/`, the rest after the first one.
pub open spec fn split_path_spec(path: Seq<char>) -> (Seq<char>, Option<Seq<char>>) {
    match split_first(path, '/') {
        Some((a, b)) => (a, Some(b)),
        None => (path, None),
    }
}

/// Splits a path at its first `/` into the local entry name and the remote rest.
pub fn split_path<'a>(path: &'a str) -> (res: (&'a str, Option<&'a str>))
    ensures
        res.0@ == split_path_spec(path@).0,
        match (res.1, split_path_spec(path@).1) {
            (Some(r), Some(q)) => r@ == q,
            (None, None) => true,
            _ => false,
        },
{
    match split_once_char(path, '/') {
        Some((a, b)) => (a, Some(b)),
        None => (path, None),
    }
}

/// How an instance argument string splits up: an optional instance to chain on
/// (given as `-c <name>`), the plugin name, and the plugin arguments after `:`.
pub open spec fn split_args_spec(input: Seq<char>) -> (Option<Seq<char>>, Seq<char>, Seq<char>) {
    let (chain_with, rest) = split_chain_spec(trim(input));
    match split_first(rest, ':') {
        Some((name, args)) => (chain_with, name, args),
        None => (chain_with, rest, Seq::<char>::empty()),
    }
}

/// The instance to chain on, if the (trimmed) argument string starts with `-c `,
/// and the rest of the string.
pub open spec fn split_chain_spec(t: Seq<char>) -> (Option<Seq<char>>, Seq<char>) {
    if "-c "@.is_prefix_of(t) {
        let r = trim(t.skip(2));
        match split_first(r, ' ') {
            Some((a, b)) => (Some(a), b),
            None => (Some(r), Seq::<char>::empty()),
        }
    } else {
        (None, t)
    }
}

/// Splits the connector/os arguments into parts.
///
/// The parts provided are:
///
/// 1. Parent OS/Connector to chain with.
/// 2. Name of the plugin library.
/// 3. Arguments for the plugin.
pub fn split_args<'a>(input: &'a str) -> (res: (Option<&'a str>, &'a str, &'a str))
    ensures
        match (res.0, split_args_spec(input@).0) {
            (Some(c), Some(d)) => c@ == d,
            (None, None) => true,
            _ => false,
        },
        res.1@ == split_args_spec(input@).1,
        res.2@ == split_args_spec(input@).2,
{
    proof {
        reveal_strlit("");
        reveal_strlit("-c ");
    }
    let input = trim_str(input);
    let (chain_with, rest): (Option<&'a str>, &'a str) = if starts_with_str(input, "-c ") {
        let n = char_len(input);
        let r = trim_str(input.substring_char(2, n));
        match split_once_char(r, ' ') {
            Some((a, b)) => (Some(a), b),
            None => (Some(r), ""),
        }
    } else {
        (None, input)
    };
    assert(rest@ == split_chain_spec(input@).1);
    match split_once_char(rest, ':') {
        Some((name, args)) => (chain_with, name, args),
        None => (chain_with, rest, ""),
    }
}

/// Components joined with `/`.
pub open spec fn join_slash(parts: Seq<Seq<char>>) -> Seq<char>
    decreases parts.len(),
{
    if parts.len() == 0 {
        Seq::empty()
    } else if parts.len() == 1 {
        parts[0]
    } else {
        join_slash(parts.drop_last()) + "/"@ + parts.last()
    }
}

/// The filesystem path a mounted path stands for: the components after the root,
/// joined with `/`, without one leading `/`.
pub open spec fn mount_path_spec(components: Seq<Seq<char>>) -> Seq<char> {
    let joined = if components.len() == 0 {
        Seq::<char>::empty()
    } else {
        join_slash(components.skip(1))
    };
    if joined.len() > 0 && joined[0] == '/' {
        joined.skip(1)
    } else {
        joined
    }
}

/// Turns the components of a mounted path (the first being the root) into a filesystem path.
pub fn mount_path(components: &Vec<String>) -> (res: String)
    ensures
        res@ == mount_path_spec(components@.map_values(|c: String| c@)),
{
    let ghost parts = components@.map_values(|c: String| c@);
    let mut joined = String::new();
    let n = components.len();
    if n > 1 {
        joined = components[1].clone();
        let mut i: usize = 2;
        while i < n
            invariant
                n == components.len(),
                2 <= i <= n,
                parts == components@.map_values(|c: String| c@),
                joined@ == join_slash(parts.skip(1).take(i - 1)),
            decreases n - i,
        {
            proof {
                reveal_strlit("/");
            }
            joined.append("/");
            joined.append(components[i].as_str());
            proof {
                let p = parts.skip(1).take(i as int);
                assert(p.drop_last() =~= parts.skip(1).take(i - 1));
                assert(p.last() == components[i as int]@);
            }
            i = i + 1;
        }
        proof {
            assert(parts.skip(1).take(n - 1) =~= parts.skip(1));
        }
    } else {
        proof {
            assert(joined@ =~= Seq::<char>::empty());
            if n == 1 {
                assert(parts.skip(1) =~= Seq::<Seq<char>>::empty());
            }
        }
    }
    proof {
        if n > 1 {
            let p = parts.skip(1).take(1);
            assert(p.len() == 1);
            assert(p[0] == components[1]@);
        }
    }
    let len = char_len(joined.as_str());
    if len > 0 && char_at(joined.as_str(), 0) == '/' {
        let s = joined.as_str().substring_char(1, len);
        String::from_str(s)
    } else {
        joined
    }
}

} // verus!
