//! The per-instance coverage runtime: module registry, stalked-address
//! translator, execution trace buffer, and the lifecycle hooks that a
//! fuzzing driver calls around each execution.
use std::collections::HashMap;

use vstd::prelude::*;

use crate::BasicBlock;
use crate::names::input_fingerprint;
use crate::registry::{range_entries, ranges_clone, ranges_new, ranges_to_entries};
use crate::trace::{blocks_encodable, drcov_bytes, modules_view, serialize_trace};

verus! {

broadcast use vstd::std_specs::hash::group_hash_axioms;

/// The one error this component reports from verified code: a recorded
/// block that no registered module range contains, or whose offset or
/// size overflows the trace record's fields.
#[derive(Clone, Copy, PartialEq, Eq, Structural, Debug)]
pub enum TraceError {
    UnencodableBlock,
}

/// Resolution of a possibly stalked address against a translation map:
/// the recorded original address, or the address itself when none is
/// recorded.
pub open spec fn resolve(m: Map<usize, usize>, a: usize) -> usize {
    if m.contains_key(a) {
        m[a]
    } else {
        a
    }
}

/// The translation map that results from starting empty and recording
/// each `(stalked, real)` pair of `adds` in order.
pub open spec fn recorded_translations(adds: Seq<(usize, usize)>) -> Map<usize, usize>
    decreases adds.len(),
{
    if adds.len() == 0 {
        Map::<usize, usize>::empty()
    } else {
        recorded_translations(adds.drop_last()).insert(adds.last().0, adds.last().1)
    }
}

/// Total translation: an address never recorded as stalked resolves to
/// itself, whatever was recorded for other addresses.
pub proof fn lemma_translation_total(adds: Seq<(usize, usize)>, a: usize)
    requires
        forall|i: int| 0 <= i < adds.len() ==> (#[trigger] adds[i]).0 != a,
    ensures
        !recorded_translations(adds).contains_key(a),
        resolve(recorded_translations(adds), a) == a,
    decreases adds.len(),
{
    if adds.len() > 0 {
        assert(adds.drop_last() =~= adds.subrange(0, adds.len() - 1));
        lemma_translation_total(adds.drop_last(), a);
    }
}

/// Translation overwrite: when the same stalked address is recorded
/// twice, the later recording wins.
pub proof fn lemma_translation_overwrite(m: Map<usize, usize>, s: usize, r1: usize, r2: usize)
    ensures
        resolve(m.insert(s, r1).insert(s, r2), s) == r2,
{
}

/// Emits per-execution coverage traces: owns the module registry, the
/// stalked-address translator, and the trace buffer for the current
/// execution.
pub struct DrCovRuntime {
    /// The basic blocks of the current execution.
    pub drcov_basic_blocks: Vec<BasicBlock>,
    ranges: rangemap::RangeMap<usize, (u16, String)>,
    stalked_addresses: HashMap<usize, usize>,
    coverage_directory: String,
}

impl DrCovRuntime {
    /// The trace buffer: blocks recorded for the current execution, in
    /// discovery order.
    pub closed spec fn blocks(self) -> Seq<BasicBlock> {
        self.drcov_basic_blocks@
    }

    /// The registry contents this runtime serializes against.
    pub closed spec fn modules(self) -> Seq<(usize, usize, u16, Seq<u8>)> {
        range_entries(self.ranges)
    }

    /// The stalked-to-original address translations recorded so far.
    pub closed spec fn stalked(self) -> Map<usize, usize> {
        self.stalked_addresses@
    }

    /// The directory trace files are written into.
    pub closed spec fn dir(self) -> Seq<char> {
        self.coverage_directory@
    }

    /// Where `real_address_for_stalked` resolves `stalked` to.
    pub open spec fn spec_real_address(self, stalked: usize) -> usize {
        resolve(self.stalked(), stalked)
    }

    /// Creates a runtime that writes into the default coverage
    /// directory.
    pub fn new() -> (r: DrCovRuntime)
        ensures
            r.blocks() == Seq::<BasicBlock>::empty(),
            r.modules() == Seq::<(usize, usize, u16, Seq<u8>)>::empty(),
            r.stalked() == Map::<usize, usize>::empty(),
            r.dir() == "./coverage"@,
    {
        DrCovRuntime {
            drcov_basic_blocks: Vec::new(),
            ranges: ranges_new(),
            stalked_addresses: HashMap::new(),
            coverage_directory: "./coverage".to_owned(),
        }
    }

    /// Creates a runtime that writes coverage into `path`.
    pub fn with_path(path: String) -> (r: DrCovRuntime)
        ensures
            r.blocks() == Seq::<BasicBlock>::empty(),
            r.modules() == Seq::<(usize, usize, u16, Seq<u8>)>::empty(),
            r.stalked() == Map::<usize, usize>::empty(),
            r.dir() == path@,
    {
        DrCovRuntime {
            drcov_basic_blocks: Vec::new(),
            ranges: ranges_new(),
            stalked_addresses: HashMap::new(),
            coverage_directory: path,
        }
    }

    /// The directory trace files are written into, for the caller that
    /// performs the writes.
    pub fn coverage_directory(&self) -> (r: &String)
        ensures
            r@ == self.dir(),
    {
        &self.coverage_directory
    }

    /// Replaces the module registry with a copy of the engine-supplied
    /// ranges. The caller is expected to create the coverage directory
    /// alongside this, as one-time setup.
    pub fn init(&mut self, ranges: &rangemap::RangeMap<usize, (u16, String)>)
        ensures
            final(self).modules() == range_entries(*ranges),
            final(self).blocks() == old(self).blocks(),
            final(self).stalked() == old(self).stalked(),
            final(self).dir() == old(self).dir(),
    {
        self.ranges = ranges_clone(ranges);
    }

    /// Called before each execution; reserved, does nothing.
    pub fn pre_exec(&mut self, _input: &[u8]) -> (r: Result<(), TraceError>)
        ensures
            r is Ok,
            *final(self) == *old(self),
    {
        Ok(())
    }

    /// Records a stalked-to-original address translation; a later
    /// recording for the same stalked address overwrites the earlier
    /// one.
    pub fn add_stalked_address(&mut self, stalked: usize, original: usize)
        ensures
            final(self).stalked() == old(self).stalked().insert(stalked, original),
            final(self).blocks() == old(self).blocks(),
            final(self).modules() == old(self).modules(),
            final(self).dir() == old(self).dir(),
    {
        self.stalked_addresses.insert(stalked, original);
    }

    /// Appends a block discovered by the instrumentation engine to the
    /// current execution's trace buffer.
    pub fn add_basic_block(&mut self, block: BasicBlock)
        ensures
            final(self).blocks() == old(self).blocks().push(block),
            final(self).modules() == old(self).modules(),
            final(self).stalked() == old(self).stalked(),
            final(self).dir() == old(self).dir(),
    {
        self.drcov_basic_blocks.push(block);
    }

    /// Resolves a stalked address to the original address it was copied
    /// from; an address with no recorded translation is returned
    /// unchanged, so resolution never fails.
    pub fn real_address_for_stalked(&self, stalked: usize) -> (r: usize)
        ensures
            r == self.spec_real_address(stalked),
    {
        match self.stalked_addresses.get(&stalked) {
            Some(a) => *a,
            None => stalked,
        }
    }

    /// Called after each execution: fingerprints the input, serializes
    /// the current trace, and clears the buffer.
    ///
    /// Returns the input's fingerprint together with the serialized
    /// trace; the caller writes the bytes to a fresh file named after
    /// the fingerprint. The buffer is empty afterwards whether or not
    /// serialization succeeded, so one execution's failure never leaks
    /// blocks into the next. Fails exactly when some recorded block
    /// cannot be encoded against the registry.
    pub fn post_exec(&mut self, input: &[u8]) -> (r: Result<(u64, Vec<u8>), TraceError>)
        ensures
            final(self).blocks() == Seq::<BasicBlock>::empty(),
            final(self).modules() == old(self).modules(),
            final(self).stalked() == old(self).stalked(),
            final(self).dir() == old(self).dir(),
            (r is Ok) == blocks_encodable(old(self).modules(), old(self).blocks()),
            (r matches Ok(v) ==> v.1@ == drcov_bytes(old(self).modules(), old(self).blocks())),
    {
        let fingerprint = input_fingerprint(input);
        let entries = ranges_to_entries(&self.ranges);
        proof {
            assert(modules_view(entries@) =~= range_entries(self.ranges));
        }
        let res = serialize_trace(&entries, &self.drcov_basic_blocks);
        self.drcov_basic_blocks.clear();
        match res {
            Some(v) => Ok((fingerprint, v)),
            None => Err(TraceError::UnencodableBlock),
        }
    }
}

impl Default for DrCovRuntime {
    /// Same as `new`: an empty runtime writing into the default
    /// coverage directory.
    fn default() -> (r: DrCovRuntime)
        ensures
            r.blocks() == Seq::<BasicBlock>::empty(),
            r.modules() == Seq::<(usize, usize, u16, Seq<u8>)>::empty(),
            r.stalked() == Map::<usize, usize>::empty(),
            r.dir() == "./coverage"@,
    {
        DrCovRuntime::new()
    }
}

} // verus!
