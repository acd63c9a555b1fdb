//! The values of the runner's command line (`--preopen HOST=GUEST`,
//! `--env KEY=VALUE`), the guest's argument vector, the memory imports it
//! defines, the results of thread spawns and the exit status.

use vstd::prelude::*;

use crate::text::{chars_of, find_char, first_index_of, lemma_first_index_of};

verus! {

/// A host directory made visible to the guest at a guest path.
#[derive(Clone, Debug, PartialEq, Eq)]
pub struct Preopen {
    pub host: String,
    pub guest: String,
}

/// One guest environment variable.
#[derive(Clone, Debug, PartialEq, Eq)]
pub struct EnvPair {
    pub key: String,
    pub value: String,
}

/// What `Preopen::from_str` gives for `value`: the text before the first
/// `=` is the host path, the text after it the guest path, and neither may
/// be empty. `Err` holds the message.
pub open spec fn preopen_parse(value: Seq<char>) -> Result<(Seq<char>, Seq<char>), Seq<char>> {
    match first_index_of(value, '=') {
        None => Err("expected HOST=GUEST"@),
        Some(i) => {
            let host = value.take(i);
            let guest = value.skip(i + 1);
            if host.len() == 0 {
                Err("host path cannot be empty"@)
            } else if guest.len() == 0 {
                Err("guest path cannot be empty"@)
            } else {
                Ok((host, guest))
            }
        },
    }
}

/// What `EnvPair::from_str` gives for `value`: the key before the first
/// `=`, which may not be empty, and the value after it.
pub open spec fn env_pair_parse(value: Seq<char>) -> Result<(Seq<char>, Seq<char>), Seq<char>> {
    match first_index_of(value, '=') {
        None => Err("expected KEY=VALUE"@),
        Some(i) => {
            let key = value.take(i);
            if key.len() == 0 {
                Err("environment key cannot be empty"@)
            } else {
                Ok((key, value.skip(i + 1)))
            }
        },
    }
}

/// Splits `value` at its first `=`.
fn split_once_eq(value: &str) -> (r: Option<(String, String)>)
    ensures
        match r {
            None => first_index_of(value@, '=') is None,
            Some((a, b)) => first_index_of(value@, '=') matches Some(i) && a@ == value@.take(i)
                && b@ == value@.skip(i + 1),
        },
{
    let chars = chars_of(value);
    match find_char(&chars, '=') {
        None => None,
        Some(i) => {
            proof {
                lemma_first_index_of(value@, '=');
            }
            let before = value.substring_char(0, i);
            let after = value.substring_char(i + 1, chars.len());
            assert(before@ =~= value@.take(i as int));
            assert(after@ =~= value@.skip(i + 1));
            Some((before.to_owned(), after.to_owned()))
        },
    }
}

impl Preopen {
    /// Parses `HOST=GUEST`.
    pub fn from_str(value: &str) -> (r: Result<Preopen, String>)
        ensures
            match r {
                Ok(p) => preopen_parse(value@) == Ok::<(Seq<char>, Seq<char>), Seq<char>>(
                    (p.host@, p.guest@),
                ),
                Err(msg) => preopen_parse(value@) == Err::<(Seq<char>, Seq<char>), Seq<char>>(
                    msg@,
                ),
            },
    {
        match split_once_eq(value) {
            None => Err(String::from_str("expected HOST=GUEST")),
            Some((host, guest)) => {
                if host.as_str().unicode_len() == 0 {
                    return Err(String::from_str("host path cannot be empty"));
                }
                if guest.as_str().unicode_len() == 0 {
                    return Err(String::from_str("guest path cannot be empty"));
                }
                Ok(Preopen { host, guest })
            },
        }
    }
}

impl EnvPair {
    /// Parses `KEY=VALUE`.
    pub fn from_str(value: &str) -> (r: Result<EnvPair, String>)
        ensures
            match r {
                Ok(p) => env_pair_parse(value@) == Ok::<(Seq<char>, Seq<char>), Seq<char>>(
                    (p.key@, p.value@),
                ),
                Err(msg) => env_pair_parse(value@) == Err::<(Seq<char>, Seq<char>), Seq<char>>(
                    msg@,
                ),
            },
    {
        match split_once_eq(value) {
            None => Err(String::from_str("expected KEY=VALUE")),
            Some((key, env_value)) => {
                if key.as_str().unicode_len() == 0 {
                    return Err(String::from_str("environment key cannot be empty"));
                }
                Ok(EnvPair { key, value: env_value })
            },
        }
    }
}

/// The first `=` of `a + "=" + b`, when `a` holds none, is the one after `a`.
proof fn lemma_first_eq_after(a: Seq<char>, b: Seq<char>)
    requires
        !a.contains('='),
    ensures
        first_index_of(a + seq!['='] + b, '=') == Some(a.len() as int),
{
    let s = a + seq!['='] + b;
    lemma_first_index_of(s, '=');
    assert(s[a.len() as int] == '=');
    match first_index_of(s, '=') {
        Some(i) => {
            if i < a.len() {
                assert(s[i] == a[i]);
            }
        },
        None => {},
    }
}

/// Law: `Preopen::from_str` reads back `HOST=GUEST` written from a non-empty
/// host path without `=` and a non-empty guest path.
pub proof fn lemma_preopen_parse_of_joined(host: Seq<char>, guest: Seq<char>)
    requires
        host.len() > 0,
        !host.contains('='),
        guest.len() > 0,
    ensures
        preopen_parse(host + seq!['='] + guest) == Ok::<(Seq<char>, Seq<char>), Seq<char>>(
            (host, guest),
        ),
{
    let s = host + seq!['='] + guest;
    lemma_first_eq_after(host, guest);
    assert(s.take(host.len() as int) =~= host);
    assert(s.skip(host.len() as int + 1) =~= guest);
}

/// Law: `EnvPair::from_str` reads back `KEY=VALUE` written from a non-empty
/// key without `=` and any value, which may itself hold `=`.
pub proof fn lemma_env_pair_parse_of_joined(key: Seq<char>, value: Seq<char>)
    requires
        key.len() > 0,
        !key.contains('='),
    ensures
        env_pair_parse(key + seq!['='] + value) == Ok::<(Seq<char>, Seq<char>), Seq<char>>(
            (key, value),
        ),
{
    let s = key + seq!['='] + value;
    lemma_first_eq_after(key, value);
    assert(s.take(key.len() as int) =~= key);
    assert(s.skip(key.len() as int + 1) =~= value);
}

} // verus!

verus! {

/// The process exit status the runner reports (`std::process::ExitCode`).
#[derive(Clone, Copy, Debug, PartialEq, Eq, Structural)]
pub enum ExitStatus {
    Success,
    Failure,
    Code(u8),
}

/// The exit status of a guest `proc_exit(status)`: 0 is success, 1 ..= 255
/// are passed on, anything else is failure.
pub fn exit_code_from_i32(status: i32) -> (r: ExitStatus)
    ensures
        r == if status == 0 {
            ExitStatus::Success
        } else if 0 < status <= 255 {
            ExitStatus::Code(status as u8)
        } else {
            ExitStatus::Failure
        },
{
    if status == 0 {
        return ExitStatus::Success;
    }
    if 0 <= status && status <= 255 {
        let code = status as u8;
        if code != 0 {
            return ExitStatus::Code(code);
        }
    }
    ExitStatus::Failure
}

/// The guest's argument vector: the program name `mysqld`, then the
/// arguments given after `--`.
pub fn guest_argv(guest_args: &Vec<String>) -> (argv: Vec<String>)
    ensures
        argv@.len() == guest_args@.len() + 1,
        argv@[0]@ == "mysqld"@,
        forall|k: int| 0 <= k < guest_args@.len() ==> #[trigger] argv@[k + 1]@ == guest_args@[k]@,
{
    let mut argv: Vec<String> = Vec::new();
    argv.push(String::from_str("mysqld"));
    let mut i: usize = 0;
    while i < guest_args.len()
        invariant
            i <= guest_args.len(),
            argv@.len() == i + 1,
            argv@[0]@ == "mysqld"@,
            forall|k: int| 0 <= k < i ==> #[trigger] argv@[k + 1]@ == guest_args@[k]@,
        decreases guest_args.len() - i,
    {
        argv.push(guest_args[i].clone());
        i += 1;
    }
    argv
}

/// What `wasi::thread-spawn` returns: the new thread's id, or `-EAGAIN`
/// (the host's value `eagain`) when the id counter has run out or the host
/// thread could not be started.
pub fn thread_spawn_result(thread_id: i32, spawned: bool, eagain: i32) -> (r: i32)
    requires
        eagain > i32::MIN,
    ensures
        r == if thread_id > 0 && spawned {
            thread_id as int
        } else {
            -eagain
        },
{
    if thread_id <= 0 || !spawned {
        -eagain
    } else {
        thread_id
    }
}

/// The (module, name) key of an import, as text.
pub open spec fn import_key(k: (String, String)) -> (Seq<char>, Seq<char>) {
    (k.0@, k.1@)
}

/// Whether the import at `i` is the first of `keys` with its key.
pub open spec fn first_with_key(keys: Seq<(String, String)>, i: int) -> bool {
    forall|j: int| 0 <= j < i ==> import_key(#[trigger] keys[j]) != import_key(keys[i])
}

/// Which memory imports get a memory of their own: the first import of each
/// (module, name) key; later imports with the same key share it.
pub fn first_of_each_key(keys: &Vec<(String, String)>) -> (first: Vec<bool>)
    ensures
        first@.len() == keys@.len(),
        forall|i: int| 0 <= i < keys@.len() ==> #[trigger] first@[i] == first_with_key(keys@, i),
{
    let mut first: Vec<bool> = Vec::new();
    let mut i: usize = 0;
    while i < keys.len()
        invariant
            i <= keys@.len(),
            first@.len() == i,
            forall|k: int| 0 <= k < i ==> #[trigger] first@[k] == first_with_key(keys@, k),
        decreases keys.len() - i,
    {
        let mut seen = false;
        let mut j: usize = 0;
        while j < i
            invariant
                i < keys@.len(),
                j <= i,
                seen == exists|k: int| 0 <= k < j && import_key(#[trigger] keys@[k]) == import_key(keys@[i as int]),
            decreases i - j,
        {
            let same = keys[j].0 == keys[i].0 && keys[j].1 == keys[i].1;
            if same {
                assert(import_key(keys@[j as int]) == import_key(keys@[i as int]));
            }
            seen = seen || same;
            j += 1;
        }
        first.push(!seen);
        i += 1;
    }
    first
}

} // verus!
