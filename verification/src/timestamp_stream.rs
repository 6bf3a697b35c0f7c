//! The source classifier: turns the raw lines of one source into
//! `(timestamp?, rendered line)` items.
//!
//! The classifier starts unlocked and tries the whole catalog on every line.
//! The first line any format matches locks the source to that format for
//! good: later lines are tried against the locked format only, and a line it
//! does not match is rendered without a timestamp while the lock persists.
//! A rendered line is the original line behind the source's prefix when a
//! timestamp was recognized, or behind an equally wide filler of spaces when
//! none was.

use vstd::prelude::*;
use crate::Timestamp;
use crate::scan::concat_bytes;
use crate::timestamp_kinds::{
    catalog_match, catalog_parse, lemma_catalog_from_props, ts_opt_matches, TimestampKind,
};

verus! {

/// Per-source classifier state: the prefix and its equally wide filler, the
/// shared catalog, and the lock, an index into the catalog once set.
pub struct TimestampedStream {
    pub prefix: Vec<u8>,
    pub filler: Vec<u8>,
    pub possible_kinds: Vec<TimestampKind>,
    pub kind: Option<usize>,
}

impl TimestampedStream {
    /// Catalog entries are well formed, the filler is spaces as wide as the
    /// prefix, and the lock, if set, names a catalog entry.
    pub open spec fn wf(self) -> bool {
        &&& forall|i: int|
            0 <= i < self.possible_kinds@.len() ==> (#[trigger] self.possible_kinds@[i]).wf()
        &&& self.filler@.len() == self.prefix@.len()
        &&& forall|i: int| 0 <= i < self.filler@.len() ==> self.filler@[i] == 32
        &&& match self.kind {
            Some(k) => k < self.possible_kinds@.len(),
            None => true,
        }
    }

    /// Starts a classifier for one source: unlocked, with a filler of spaces
    /// matching the prefix width.
    pub fn new(prefix: Vec<u8>, possible_kinds: Vec<TimestampKind>) -> (r: Self)
        requires
            forall|i: int| 0 <= i < possible_kinds@.len() ==> (#[trigger] possible_kinds@[i]).wf(),
        ensures
            r.wf(),
            r.prefix == prefix,
            r.possible_kinds == possible_kinds,
            r.kind is None,
    {
        let mut filler: Vec<u8> = Vec::new();
        let mut i: usize = 0;
        while i < prefix.len()
            invariant
                0 <= i <= prefix@.len(),
                filler@.len() == i,
                forall|k: int| 0 <= k < filler@.len() ==> filler@[k] == 32,
            decreases prefix@.len() - i,
        {
            filler.push(32);
            i = i + 1;
        }
        TimestampedStream { prefix, filler, possible_kinds, kind: None }
    }

    /// Classifies one line.
    ///
    /// While unlocked, the whole catalog is tried in order; the first match
    /// locks its format. While locked, only the locked format is tried, and
    /// the lock never changes — a line that would only match some other
    /// format is a non-match, never a switch. The returned line is the input
    /// behind the prefix when a timestamp was found, behind the filler
    /// otherwise.
    pub fn get_next(&mut self, line: &Vec<u8>) -> (r: (Option<Timestamp>, Vec<u8>))
        requires
            old(self).wf(),
        ensures
            final(self).wf(),
            final(self).prefix == old(self).prefix,
            final(self).filler == old(self).filler,
            final(self).possible_kinds == old(self).possible_kinds,
            (match old(self).kind {
                Some(k) => final(self).kind == Some(k) && ts_opt_matches(
                    r.0,
                    old(self).possible_kinds@[k as int].spec_parse(line@),
                ),
                None => (match catalog_parse(old(self).possible_kinds@, line@) {
                    Some(p) => final(self).kind == Some(p.0 as usize) && ts_opt_matches(
                        r.0,
                        Some(p.1),
                    ),
                    None => final(self).kind is None && r.0 is None,
                }),
            }),
            r.1@ == (if r.0 is Some {
                old(self).prefix@ + line@
            } else {
                old(self).filler@ + line@
            }),
    {
        proof {
            lemma_catalog_from_props(self.possible_kinds@, line@, 0);
        }
        if self.kind.is_none() {
            match catalog_match(&self.possible_kinds, line) {
                Some(hit) => {
                    self.kind = Some(hit.0);
                },
                None => {},
            }
        }
        match self.kind {
            Some(k) => {
                let ts = self.possible_kinds[k].parse(line);
                let rendered = if ts.is_none() {
                    concat_bytes(&self.filler, line)
                } else {
                    concat_bytes(&self.prefix, line)
                };
                (ts, rendered)
            },
            None => (None, concat_bytes(&self.filler, line)),
        }
    }
}

} // verus!
