//! Decisions of a directory transfer: which keys each action needs, what each
//! file's bytes become, and where the result goes in the mirrored tree.

use vstd::prelude::*;

use crate::codec::{
    decrypt_spec, encrypt_spec, iv_of, CodecError, DecryptedSave, EncryptedSave, DEFAULT_IV,
};
use crate::key_derivation::{derive_key, derive_key_spec, Key};

verus! {

/// Account identifier used for the Twitch platform, which has no per-user identifier.
pub const TWITCH_ID: &'static str = "YWprc2g1NGZkaGo0MzJoMjM0amg=";

/// Options shared by every action.
pub struct CliOptions {
    /// Overwrite save files in the target directory if it already exists.
    pub force_overwrite: bool,
    /// The save directory to read; its final name is the account identifier.
    pub input: String,
}

/// The platform account that encrypted output is bound to.
pub struct Platform {
    /// Epic account identifier.
    pub epic: Option<String>,
    /// Steam account identifier (SteamID64).
    pub steam: Option<String>,
    /// Twitch, which uses a fixed identifier.
    pub twitch: bool,
}

/// What to do with a save directory.
pub enum Action {
    Decrypt { opts: CliOptions },
    Encrypt { platform: Platform, opts: CliOptions },
    Transfer { platform: Platform, opts: CliOptions },
}

/// An action together with the keys it needs.
#[derive(Clone, Copy, Debug)]
pub enum Operation {
    /// Decode each container with the source key and write the plaintext.
    Decrypt { source_key: Key },
    /// Encode each plaintext file with the target key and the default IV.
    Encrypt { target_key: Key },
    /// Decode with the source key and encode again with the target key, keeping the IV.
    Transfer { source_key: Key, target_key: Key },
}

/// Why a single file could not be processed.
#[derive(Clone, Copy, Debug, PartialEq, Eq, Structural)]
pub enum TransferError {
    /// The file's path does not lie under the source directory.
    OutsideSource,
    /// The file's bytes could not be decoded.
    Codec(CodecError),
}

/// The options carried by an action.
pub open spec fn opts_of(a: &Action) -> &CliOptions {
    match a {
        Action::Decrypt { opts } => opts,
        Action::Encrypt { opts, .. } => opts,
        Action::Transfer { opts, .. } => opts,
    }
}

/// The identifier of the target account: Epic if given, else Steam, else Twitch's.
pub open spec fn target_id_spec(p: &Platform) -> Seq<char> {
    match p.epic {
        Some(e) => e@,
        None => match p.steam {
            Some(s) => s@,
            None => TWITCH_ID@,
        },
    }
}

impl Action {
    /// The options of any action.
    pub fn get_opts(&self) -> (r: &CliOptions)
        ensures
            r == opts_of(self),
    {
        match self {
            Action::Decrypt { opts } => opts,
            Action::Encrypt { opts, .. } => opts,
            Action::Transfer { opts, .. } => opts,
        }
    }

    /// The operation this action performs on a directory named `source_id`,
    /// with the keys derived for the source and target accounts.
    pub fn operation(&self, source_id: &str) -> (r: Operation)
        ensures
            match (self, r) {
                (Action::Decrypt { .. }, Operation::Decrypt { source_key }) =>
                    source_key@ == derive_key_spec(source_id@),
                (Action::Encrypt { platform, .. }, Operation::Encrypt { target_key }) =>
                    target_key@ == derive_key_spec(target_id_spec(platform)),
                (Action::Transfer { platform, .. }, Operation::Transfer { source_key, target_key }) =>
                    source_key@ == derive_key_spec(source_id@)
                    && target_key@ == derive_key_spec(target_id_spec(platform)),
                _ => false,
            },
    {
        match self {
            Action::Decrypt { .. } => Operation::Decrypt { source_key: derive_key(source_id) },
            Action::Encrypt { platform, .. } => {
                Operation::Encrypt { target_key: derive_key(platform.get_target_id()) }
            },
            Action::Transfer { platform, .. } => {
                let source_key = derive_key(source_id);
                let target_key = derive_key(platform.get_target_id());
                Operation::Transfer { source_key, target_key }
            },
        }
    }
}

impl Platform {
    /// The identifier of the target account: Epic if given, else Steam, else Twitch's.
    pub fn get_target_id(&self) -> (r: &str)
        ensures
            r@ == target_id_spec(self),
    {
        match &self.epic {
            Some(e) => e.as_str(),
            None => match &self.steam {
                Some(s) => s.as_str(),
                None => TWITCH_ID,
            },
        }
    }
}

/// What the bytes of one file become under an operation.
pub open spec fn convert_spec(op: Operation, data: Seq<u8>) -> Result<Seq<u8>, CodecError> {
    match op {
        Operation::Decrypt { source_key } => decrypt_spec(data, source_key@),
        Operation::Encrypt { target_key } => Ok(encrypt_spec(data, target_key@, DEFAULT_IV@)),
        Operation::Transfer { source_key, target_key } => match decrypt_spec(data, source_key@) {
            Ok(p) => Ok(encrypt_spec(p, target_key@, iv_of(data))),
            Err(e) => Err(e),
        },
    }
}

/// Converts the bytes of one file.
pub fn convert(op: &Operation, data: Vec<u8>) -> (r: Result<Vec<u8>, CodecError>)
    ensures
        match r {
            Ok(out) => convert_spec(*op, data@) == Ok::<Seq<u8>, CodecError>(out@),
            Err(e) => convert_spec(*op, data@) == Err::<Seq<u8>, CodecError>(e),
        },
        (op is Transfer && r is Ok) ==> iv_of(r->Ok_0@) == iv_of(data@),
{
    match op {
        Operation::Decrypt { source_key } => {
            let save = EncryptedSave::new(data);
            match save.decrypt(source_key) {
                Ok(plain) => Ok(plain.text),
                Err(e) => Err(e),
            }
        },
        Operation::Encrypt { target_key } => {
            let save = DecryptedSave::new(data);
            Ok(save.encrypt(target_key, None).data)
        },
        Operation::Transfer { source_key, target_key } => {
            let save = EncryptedSave::new(data);
            match save.decrypt(source_key) {
                Ok(plain) => {
                    let iv = save.iv();
                    Ok(plain.encrypt(target_key, Some(&iv)).data)
                },
                Err(e) => Err(e),
            }
        },
    }
}

/// The segments of a path as character sequences.
pub open spec fn segments(p: Seq<String>) -> Seq<Seq<char>> {
    p.map_values(|s: String| s@)
}

/// The path under `target` that mirrors `entry`, a path under `root`;
/// `None` where `entry` does not lie under `root`.
pub open spec fn mirror_spec(
    root: Seq<Seq<char>>,
    target: Seq<Seq<char>>,
    entry: Seq<Seq<char>>,
) -> Option<Seq<Seq<char>>> {
    if root.len() <= entry.len() && entry.take(root.len() as int) == root {
        Some(target + entry.skip(root.len() as int))
    } else {
        None
    }
}

/// Copies `src` onto the end of `dst`.
fn append_segments(dst: &mut Vec<String>, src: &Vec<String>, from: usize)
    requires
        from <= src@.len(),
    ensures
        segments(final(dst)@) == segments(old(dst)@) + segments(src@).skip(from as int),
{
    let mut i: usize = from;
    while i < src.len()
        invariant
            from <= i <= src@.len(),
            segments(dst@) == segments(old(dst)@) + segments(src@).subrange(from as int, i as int),
        decreases src@.len() - i,
    {
        let ghost before = dst@;
        let s = src[i].clone();
        assert(s@ == src@[i as int]@);
        dst.push(s);
        proof {
            assert(dst@ =~= before.push(s));
            assert(segments(dst@) =~= segments(before).push(s@));
            assert(segments(src@).subrange(from as int, i + 1) =~= segments(src@).subrange(
                from as int,
                i as int,
            ).push(s@));
        }
        i = i + 1;
    }
    proof {
        assert(segments(src@).subrange(from as int, i as int) =~= segments(src@).skip(from as int));
    }
}

/// The path of `entry` with the leading `source_root` segments replaced by `target_root`.
pub fn mirror_path(source_root: &Vec<String>, target_root: &Vec<String>, entry: &Vec<String>) -> (r:
    Option<Vec<String>>)
    ensures
        match r {
            Some(p) => mirror_spec(segments(source_root@), segments(target_root@), segments(entry@))
                == Some(segments(p@)),
            None => mirror_spec(segments(source_root@), segments(target_root@), segments(entry@)) is None,
        },
{
    let n = source_root.len();
    if n > entry.len() {
        return None;
    }
    let mut i: usize = 0;
    while i < n
        invariant
            n == source_root@.len(),
            n <= entry@.len(),
            i <= n,
            forall|j: int| 0 <= j < i ==> entry@[j]@ == source_root@[j]@,
        decreases n - i,
    {
        if entry[i] != source_root[i] {
            proof {
                assert(segments(entry@).take(n as int)[i as int] != segments(source_root@)[i as int]);
            }
            return None;
        }
        i = i + 1;
    }
    proof {
        assert(segments(entry@).take(n as int) =~= segments(source_root@));
    }
    let mut out: Vec<String> = Vec::new();
    append_segments(&mut out, target_root, 0);
    append_segments(&mut out, entry, n);
    proof {
        assert(segments(out@) =~= segments(target_root@) + segments(entry@).skip(n as int));
    }
    Some(out)
}

/// The outcome for one file: its mirrored path and converted bytes, or why it failed.
pub open spec fn process_spec(
    op: Operation,
    root: Seq<Seq<char>>,
    target: Seq<Seq<char>>,
    entry: Seq<Seq<char>>,
    data: Seq<u8>,
) -> Result<(Seq<Seq<char>>, Seq<u8>), TransferError> {
    match convert_spec(op, data) {
        Err(e) => Err(TransferError::Codec(e)),
        Ok(out) => match mirror_spec(root, target, entry) {
            Some(path) => Ok((path, out)),
            None => Err(TransferError::OutsideSource),
        },
    }
}

/// The outcomes of a run over a sequence of files, each given as its path and bytes.
pub open spec fn outcomes_spec(
    op: Operation,
    root: Seq<Seq<char>>,
    target: Seq<Seq<char>>,
    files: Seq<(Seq<Seq<char>>, Seq<u8>)>,
) -> Seq<Result<(Seq<Seq<char>>, Seq<u8>), TransferError>> {
    files.map_values(|f: (Seq<Seq<char>>, Seq<u8>)| process_spec(op, root, target, f.0, f.1))
}

/// Processes one file found under `source_root`: returns the path to write
/// under `target_root` and the bytes to write there.
pub fn process_entry(
    op: &Operation,
    source_root: &Vec<String>,
    target_root: &Vec<String>,
    entry: &Vec<String>,
    data: Vec<u8>,
) -> (r: Result<(Vec<String>, Vec<u8>), TransferError>)
    ensures
        match r {
            Ok((path, out)) => process_spec(
                *op,
                segments(source_root@),
                segments(target_root@),
                segments(entry@),
                data@,
            ) == Ok::<(Seq<Seq<char>>, Seq<u8>), TransferError>((segments(path@), out@)),
            Err(e) => process_spec(
                *op,
                segments(source_root@),
                segments(target_root@),
                segments(entry@),
                data@,
            ) == Err::<(Seq<Seq<char>>, Seq<u8>), TransferError>(e),
        },
{
    let out = match convert(op, data) {
        Ok(out) => out,
        Err(e) => return Err(TransferError::Codec(e)),
    };
    match mirror_path(source_root, target_root, entry) {
        Some(path) => Ok((path, out)),
        None => Err(TransferError::OutsideSource),
    }
}

/// Failures are isolated per file: replacing one file of a run by any other
/// (a corrupted one, say) leaves the outcome of every other file unchanged.
pub proof fn lemma_failure_isolation(
    op: Operation,
    root: Seq<Seq<char>>,
    target: Seq<Seq<char>>,
    files: Seq<(Seq<Seq<char>>, Seq<u8>)>,
    j: int,
    replacement: (Seq<Seq<char>>, Seq<u8>),
    i: int,
)
    requires
        0 <= i < files.len(),
        0 <= j < files.len(),
        i != j,
    ensures
        outcomes_spec(op, root, target, files.update(j, replacement))[i]
            == outcomes_spec(op, root, target, files)[i],
        outcomes_spec(op, root, target, files)[i]
            == process_spec(op, root, target, files[i].0, files[i].1),
{
}

} // verus!
