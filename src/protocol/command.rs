//! Commands of the memcached text protocol that this server executes.
use vstd::prelude::*;

verus! {

/// Longest key accepted, in bytes.
pub const MAX_KEY_LENGTH: usize = 250;

/// A parsed command.
#[derive(Debug, Clone, PartialEq, Eq)]
pub enum Command {
    /// `get <key>+`
    Get { keys: Vec<Vec<u8>> },
    /// `set <key> <flags> <exptime> <bytes> [noreply]` and its data block:
    /// a storage command.
    Store { key: Vec<u8>, flags: u32, exptime: u64, data: Vec<u8>, noreply: bool },
    /// `delete <key> [<exptime>] [noreply]`
    Delete { key: Vec<u8>, noreply: bool },
    /// `version`
    Version,
    /// `quit`
    Quit,
}

/// A command over byte sequences.
pub enum CommandModel {
    Get { keys: Seq<Seq<u8>> },
    Store { key: Seq<u8>, flags: u32, exptime: u64, data: Seq<u8>, noreply: bool },
    Delete { key: Seq<u8>, noreply: bool },
    Version,
    Quit,
}

pub open spec fn views(v: Seq<Vec<u8>>) -> Seq<Seq<u8>> {
    v.map_values(|k: Vec<u8>| k@)
}

impl View for Command {
    type V = CommandModel;

    open spec fn view(&self) -> CommandModel {
        match self {
            Command::Get { keys } => CommandModel::Get { keys: views(keys@) },
            Command::Store { key, flags, exptime, data, noreply } => CommandModel::Store {
                key: key@,
                flags: *flags,
                exptime: *exptime,
                data: data@,
                noreply: *noreply,
            },
            Command::Delete { key, noreply } => CommandModel::Delete { key: key@, noreply: *noreply },
            Command::Version => CommandModel::Version,
            Command::Quit => CommandModel::Quit,
        }
    }
}

impl CommandModel {
    /// Whether the client asked for no response.
    pub open spec fn noreply(self) -> bool {
        match self {
            CommandModel::Store { noreply, .. } => noreply,
            CommandModel::Delete { noreply, .. } => noreply,
            _ => false,
        }
    }
}

/// A key is valid when it has 1 to 250 bytes, each strictly between space
/// (0x20) and DEL (0x7F).
pub open spec fn valid_key(key: Seq<u8>) -> bool {
    &&& 0 < key.len() <= MAX_KEY_LENGTH
    &&& forall|i: int| 0 <= i < key.len() ==> 0x20 < #[trigger] key[i] < 0x7f
}

impl Command {
    /// Whether this command asked for no response.
    pub fn is_noreply(&self) -> (r: bool)
        ensures
            r == self@.noreply(),
    {
        match self {
            Command::Store { noreply, .. } => *noreply,
            Command::Delete { noreply, .. } => *noreply,
            _ => false,
        }
    }

    /// The command as an owned value; commands already own their bytes.
    pub fn into_owned(self) -> (r: Command)
        ensures
            r@ == self@,
    {
        self
    }
}

/// Checks a key against the key rules.
pub fn is_valid_key(key: &[u8]) -> (r: bool)
    ensures
        r == valid_key(key@),
{
    if key.len() == 0 || key.len() > MAX_KEY_LENGTH {
        return false;
    }
    let mut i: usize = 0;
    while i < key.len()
        invariant
            i <= key@.len(),
            forall|j: int| 0 <= j < i ==> 0x20 < #[trigger] key@[j] < 0x7f,
        decreases key@.len() - i,
    {
        let b = key[i];
        if b <= 0x20 || b >= 0x7f {
            return false;
        }
        i = i + 1;
    }
    true
}

} // verus!
