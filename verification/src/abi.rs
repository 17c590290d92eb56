//! The importer plugin ABI: the magic and version checks made before a
//! library's importers are accepted, the buffer-size negotiation, the
//! result-buffer wire format for variable-length importer results, and the
//! import outcome types.

use vstd::prelude::*;

use crate::wire::{read_le4, spec_u32_of_le};

verus! {

/// Dylib magic: the ASCII bytes of `TRES` read little-endian. A plugin
/// exports this value; a different value means the library is not an
/// importer library.
pub const MAGIC: u32 = 0x53455254;

/// The importer FFI version of this host. A plugin whose exported version
/// differs is not loaded.
pub const FFI_VERSION_MINOR: u32 = 0;

/// The importer FFI version of this build.
pub fn version() -> (r: u32)
    ensures
        r == FFI_VERSION_MINOR,
{
    FFI_VERSION_MINOR
}

/// Return code: the importer wrote its output.
pub const SUCCESS: i32 = 0;

/// Return code: the result buffer holds a serialized dependency list.
pub const REQUIRE_DEPENDENCIES: i32 = 1;

/// Return code: the result buffer holds a serialized source list.
pub const REQUIRE_SOURCES: i32 = 2;

/// Return code: a callback found nothing.
pub const NOT_FOUND: i32 = -1;

/// Return code: a byte string crossing the boundary was not UTF-8.
pub const NOT_UTF8: i32 = -2;

/// Return code: the buffer was too small; its length field holds the
/// required size and the caller reallocates and retries.
pub const BUFFER_IS_TOO_SMALL: i32 = -3;

/// Return code: the result buffer holds a UTF-8 error message.
pub const OTHER_ERROR: i32 = -6;

/// Why a plugin library was rejected at load time.
#[derive(Clone, Copy, Debug, PartialEq, Eq, Structural)]
pub enum PluginCheckError {
    /// Its exported magic value is not the dylib magic.
    MagicMismatch,
    /// Its importer FFI version differs from the host's.
    VersionMismatch,
}

/// Accepts a plugin exactly when its exported magic matches and its
/// exported FFI version equals the host's; a mismatch of either is a load
/// error for that library and it contributes no importers.
pub fn check_plugin(magic: u32, lib_version: u32) -> (r: Result<(), PluginCheckError>)
    ensures
        r is Ok <==> magic == MAGIC && lib_version == FFI_VERSION_MINOR,
        r == Err::<(), PluginCheckError>(PluginCheckError::MagicMismatch) <==> magic != MAGIC,
        r == Err::<(), PluginCheckError>(PluginCheckError::VersionMismatch) <==> (magic == MAGIC
            && lib_version != FFI_VERSION_MINOR),
{
    if magic != MAGIC {
        Err(PluginCheckError::MagicMismatch)
    } else if lib_version != FFI_VERSION_MINOR {
        Err(PluginCheckError::VersionMismatch)
    } else {
        Ok(())
    }
}

/// One step of the export negotiation: the library reported how many
/// importers it wishes to export into a buffer of the given capacity.
pub enum ExportStep {
    /// The buffer held them all: `count` entries are initialized.
    Done {
        /// How many entries to read.
        count: u32,
    },
    /// The buffer was too small: grow it to `need` and call again.
    Grow {
        /// The capacity to allocate.
        need: u32,
    },
}

/// Decides the next step of the export negotiation: grow exactly when the
/// reported count exceeds the capacity.
pub fn export_step(count: u32, cap: u32) -> (r: ExportStep)
    ensures
        match r {
            ExportStep::Done { count: c } => count <= cap && c == count,
            ExportStep::Grow { need } => count > cap && need == count,
        },
{
    if count > cap {
        ExportStep::Grow { need: count }
    } else {
        ExportStep::Done { count }
    }
}

/// One step of a callback's buffer negotiation, as the caller of a
/// sources callback sees it: the callback returned a code, and for
/// `BUFFER_IS_TOO_SMALL` wrote the required size into the length field.
pub enum CallbackStep {
    /// The callback wrote `len` bytes into the buffer.
    Done {
        /// How many bytes were written.
        len: u32,
    },
    /// The buffer was too small: grow it to `need` and call again.
    Grow {
        /// The capacity to allocate.
        need: u32,
    },
    /// The callback found nothing for the request.
    Missing,
    /// A string crossing the boundary was not UTF-8.
    NotUtf8,
    /// The required size is over the caller's limit, or the code is not
    /// one the protocol defines.
    Failed,
}

/// Decides the next step after a sources callback returned: grow exactly
/// when the callback asks for a larger buffer within the caller's limit;
/// a request over the limit, or an unknown code, fails.
pub fn sources_callback_step(code: i32, reported_len: u32, limit: u32) -> (r: CallbackStep)
    ensures
        match r {
            CallbackStep::Done { len } => code == SUCCESS && len == reported_len,
            CallbackStep::Grow { need } => code == BUFFER_IS_TOO_SMALL && reported_len <= limit
                && need == reported_len,
            CallbackStep::Missing => code == NOT_FOUND,
            CallbackStep::NotUtf8 => code == NOT_UTF8,
            CallbackStep::Failed => (code == BUFFER_IS_TOO_SMALL && reported_len > limit) || (code
                != SUCCESS && code != BUFFER_IS_TOO_SMALL && code != NOT_FOUND && code != NOT_UTF8),
        },
{
    if code == SUCCESS {
        CallbackStep::Done { len: reported_len }
    } else if code == BUFFER_IS_TOO_SMALL {
        if reported_len <= limit {
            CallbackStep::Grow { need: reported_len }
        } else {
            CallbackStep::Failed
        }
    } else if code == NOT_FOUND {
        CallbackStep::Missing
    } else if code == NOT_UTF8 {
        CallbackStep::NotUtf8
    } else {
        CallbackStep::Failed
    }
}

/// A dependency an importer asks for: a source URL (relative to the
/// importer's own source) and a target format.
pub struct Dependency {
    /// Source URL, relative to the requesting item's source.
    pub source: String,
    /// Target format the dependency must be imported into.
    pub target: String,
}

/// Why an import call did not succeed.
pub enum ImportError {
    /// The importer needs these sources fetched before it is retried.
    RequireSources {
        /// Source URLs relative to the item's source.
        sources: Vec<String>,
    },
    /// The importer needs these dependencies imported before it is
    /// retried.
    RequireDependencies {
        /// The dependencies asked for.
        dependencies: Vec<Dependency>,
    },
    /// The import failed outright.
    Other {
        /// The importer's message.
        reason: String,
    },
}

/// Fails with a dependency request exactly when some dependency is
/// missing.
pub fn ensure_dependencies(missing: Vec<Dependency>) -> (r: Result<(), ImportError>)
    ensures
        r is Ok <==> missing@.len() == 0,
        missing@.len() > 0 ==> (r matches Err(ImportError::RequireDependencies { dependencies })
            && dependencies == missing),
{
    if missing.is_empty() {
        Ok(())
    } else {
        Err(ImportError::RequireDependencies { dependencies: missing })
    }
}

/// Fails with a source request exactly when some source is missing.
pub fn ensure_sources(missing: Vec<String>) -> (r: Result<(), ImportError>)
    ensures
        r is Ok <==> missing@.len() == 0,
        missing@.len() > 0 ==> (r matches Err(ImportError::RequireSources { sources }) && sources
            == missing),
{
    if missing.is_empty() {
        Ok(())
    } else {
        Err(ImportError::RequireSources { sources: missing })
    }
}

/// Parses `count` length-prefixed records starting at `pos`: each record
/// is a 32-bit little-endian length followed by that many bytes. Yields
/// the records and the position after the last one.
pub open spec fn spec_parse_records(bytes: Seq<u8>, pos: int, count: int) -> Option<
    (Seq<Seq<u8>>, int),
>
    decreases count,
{
    if count <= 0 {
        Some((Seq::empty(), pos))
    } else if pos < 0 || pos + 4 > bytes.len() {
        None
    } else {
        let l = spec_u32_of_le(bytes.subrange(pos, pos + 4)) as int;
        if pos + 4 + l > bytes.len() {
            None
        } else {
            match spec_parse_records(bytes, pos + 4 + l, count - 1) {
                None => None,
                Some((rest, end)) => Some(
                    (seq![bytes.subrange(pos + 4, pos + 4 + l)] + rest, end),
                ),
            }
        }
    }
}

/// The result-buffer list format: a 32-bit little-endian record count,
/// then that many length-prefixed records, filling the buffer exactly.
pub open spec fn spec_parse_record_list(bytes: Seq<u8>) -> Option<Seq<Seq<u8>>> {
    if bytes.len() < 4 {
        None
    } else {
        let count = spec_u32_of_le(bytes.subrange(0, 4)) as int;
        match spec_parse_records(bytes, 4, count) {
            None => None,
            Some((items, end)) => if end == bytes.len() {
                Some(items)
            } else {
                None
            },
        }
    }
}

/// Reads a record list from a result buffer: `Some` exactly when the
/// buffer is a well-formed list that it fills exactly.
pub fn parse_record_list(bytes: &Vec<u8>) -> (r: Option<Vec<Vec<u8>>>)
    ensures
        match r {
            Some(items) => spec_parse_record_list(bytes@) == Some(items.deep_view()),
            None => spec_parse_record_list(bytes@) is None,
        },
{
    let n = bytes.len();
    if n < 4 {
        return None;
    }
    let count = read_le4(bytes, 0);
    let mut items: Vec<Vec<u8>> = Vec::new();
    let mut pos: usize = 4;
    let mut left: u32 = count;
    proof {
        assert(items.deep_view() =~~= Seq::<Seq<u8>>::empty());
        if spec_parse_records(bytes@, 4, count as int) is Some {
            let (rest, end) = spec_parse_records(bytes@, 4, count as int).unwrap();
            assert(items.deep_view() + rest =~~= rest);
        }
    }
    while left > 0
        invariant
            n == bytes@.len(),
            n >= 4,
            count == spec_u32_of_le(bytes@.subrange(0, 4)),
            4 <= pos <= n,
            left <= count,
            spec_parse_records(bytes@, 4, count as int) == (match spec_parse_records(
                bytes@,
                pos as int,
                left as int,
            ) {
                None => None::<(Seq<Seq<u8>>, int)>,
                Some((rest, end)) => Some((items.deep_view() + rest, end)),
            }),
        decreases left,
    {
        if pos > n - 4 {
            proof {
                assert(spec_parse_records(bytes@, pos as int, left as int) is None);
            }
            return None;
        }
        let l = read_le4(bytes, pos);
        proof {
            assert(bytes@.subrange(pos as int, pos + 4) == bytes@.subrange(pos as int, pos + 4int));
        }
        if l as usize > n - pos - 4 {
            proof {
                assert(spec_parse_records(bytes@, pos as int, left as int) is None);
            }
            return None;
        }
        let item = copy_range(bytes, pos + 4, l as usize);
        let ghost rec = bytes@.subrange(pos + 4int, pos + 4 + l as int);
        let ghost pre_items = items.deep_view();
        items.push(item);
        proof {
            assert(items.deep_view() =~~= pre_items + seq![rec]);
            assert forall|rest: Seq<Seq<u8>>, end: int|
                spec_parse_records(bytes@, pos + 4 + l as int, left - 1) == Some::<(Seq<Seq<u8>>, int)>((rest, end))
                    implies pre_items + (seq![rec] + rest) =~~= items.deep_view() + rest by {}
        }
        pos = pos + 4 + l as usize;
        left = left - 1;
    }
    proof {
        assert(spec_parse_records(bytes@, pos as int, 0) == Some((Seq::<Seq<u8>>::empty(), pos as int)));
        assert(items.deep_view() + Seq::<Seq<u8>>::empty() =~= items.deep_view());
    }
    if pos == n {
        Some(items)
    } else {
        None
    }
}

/// Copies `len` bytes starting at `from`.
fn copy_range(bytes: &Vec<u8>, from: usize, len: usize) -> (r: Vec<u8>)
    requires
        from + len <= bytes@.len(),
    ensures
        r@ == bytes@.subrange(from as int, from + len),
{
    let n = bytes.len();
    let mut out: Vec<u8> = Vec::new();
    let mut i: usize = 0;
    while i < len
        invariant
            n == bytes@.len(),
            from + len <= bytes@.len(),
            i <= len,
            out@ == bytes@.subrange(from as int, from + i),
        decreases len - i,
    {
        out.push(bytes[from + i]);
        proof {
            assert(out@ =~= bytes@.subrange(from as int, from + i + 1));
        }
        i = i + 1;
    }
    out
}

} // verus!
