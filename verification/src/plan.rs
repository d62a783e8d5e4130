//! Write planning: zipping a decoded map's sources with their optional
//! contents, dropping absent entries and unplaceable paths, and laying the
//! rest out under the host-keyed output root — for one map and for a whole
//! run.

use vstd::prelude::*;

use crate::decode::{
    decodes_flat, decodes_indexed, flat_contents_of, flat_sources_of, load_from_slice,
    SourceEntries,
};
use crate::place::{
    bad_file, bad_file_check, file_part, out_dir, out_path, out_root, plan_write, sanitize,
    WriteCmd, WriteCmdView,
};
use crate::text::starts_with;

verus! {

/// What one (source path, optional contents) pair contributes: nothing
/// when the contents are absent or the sanitized path has no usable file
/// component; otherwise one write of the contents at the computed place.
pub open spec fn plan_entry(host: Seq<char>, src: Seq<char>, c: Option<Seq<char>>) -> Option<
    WriteCmdView,
> {
    match c {
        None => None,
        Some(text) => if bad_file(file_part(sanitize(src))) {
            None
        } else {
            Some(WriteCmdView { dir: out_dir(host, src), path: out_path(host, src), contents: text })
        },
    }
}

/// The writes one decoded map yields, in source order.
pub open spec fn planned(host: Seq<char>, srcs: Seq<Seq<char>>, ctns: Seq<Option<Seq<char>>>) -> Seq<
    WriteCmdView,
>
    decreases srcs.len(),
{
    if srcs.len() == 0 || ctns.len() == 0 {
        Seq::empty()
    } else {
        let rest = planned(host, srcs.drop_last(), ctns.drop_last());
        match plan_entry(host, srcs.last(), ctns.last()) {
            Some(v) => rest.push(v),
            None => rest,
        }
    }
}

/// The index of the (source, contents) entry that planned write `k` came
/// from.
pub open spec fn planned_source_index(
    host: Seq<char>,
    srcs: Seq<Seq<char>>,
    ctns: Seq<Option<Seq<char>>>,
    k: int,
) -> int
    decreases srcs.len(),
{
    if srcs.len() == 0 || ctns.len() == 0 {
        0
    } else if k < planned(host, srcs.drop_last(), ctns.drop_last()).len() {
        planned_source_index(host, srcs.drop_last(), ctns.drop_last(), k)
    } else {
        srcs.len() - 1
    }
}

/// Planned write `k` is traceable: the entry it came from holds present
/// contents, and the write is exactly what that entry contributes.
pub open spec fn planned_write_traced(
    host: Seq<char>,
    srcs: Seq<Seq<char>>,
    ctns: Seq<Option<Seq<char>>>,
    k: int,
) -> bool {
    let i = planned_source_index(host, srcs, ctns, k);
    0 <= i < ctns.len() && ctns[i] is Some && planned(host, srcs, ctns)[k] == plan_entry(
        host,
        srcs[i],
        ctns[i],
    )->0
}

/// No write is planned for an entry whose contents are absent: every
/// planned write carries the present contents of the entry it came from,
/// placed at that entry's path.
pub proof fn lemma_no_write_without_contents(
    host: Seq<char>,
    srcs: Seq<Seq<char>>,
    ctns: Seq<Option<Seq<char>>>,
)
    requires
        srcs.len() == ctns.len(),
    ensures
        forall|k: int| 0 <= k < planned(host, srcs, ctns).len() ==> #[trigger] planned_write_traced(
            host,
            srcs,
            ctns,
            k,
        ),
    decreases srcs.len(),
{
    if srcs.len() > 0 {
        lemma_no_write_without_contents(host, srcs.drop_last(), ctns.drop_last());
        assert forall|k: int| 0 <= k < planned(host, srcs, ctns).len() implies
            #[trigger] planned_write_traced(host, srcs, ctns, k) by {
            let rest = planned(host, srcs.drop_last(), ctns.drop_last());
            let i = planned_source_index(host, srcs, ctns, k);
            if k < rest.len() {
                assert(planned_write_traced(host, srcs.drop_last(), ctns.drop_last(), k));
                assert(i == planned_source_index(host, srcs.drop_last(), ctns.drop_last(), k));
                assert(srcs.drop_last()[i] == srcs[i] && ctns.drop_last()[i] == ctns[i]);
                assert(planned(host, srcs, ctns)[k] == rest[k]);
            } else {
                assert(i == srcs.len() - 1);
                assert(planned(host, srcs, ctns)[k] == plan_entry(host, srcs[i], ctns[i])->0);
            }
        }
    } else {
        assert(planned(host, srcs, ctns).len() == 0);
    }
}

/// The writes one decoded map yields. Entries with absent contents are
/// dropped; so are entries whose sanitized path has no file component; the
/// rest come out in source order, each under the host-keyed output root.
pub fn plan_map_writes(host: &str, entries: &SourceEntries) -> (r: Vec<WriteCmd>)
    requires
        entries.wf(),
    ensures
        r.deep_view() == planned(host@, entries.sources.deep_view(), entries.contents.deep_view()),
        forall|k: int| 0 <= k < r@.len() ==> starts_with(
            #[trigger] r.deep_view()[k].path,
            out_root(host@),
        ),
{
    let ghost srcs_dv = entries.sources.deep_view();
    let ghost ctns_dv = entries.contents.deep_view();
    let mut out: Vec<WriteCmd> = Vec::new();
    let n = entries.sources.len();
    proof {
        assert(srcs_dv.len() == n && ctns_dv.len() == n);
    }
    let mut i: usize = 0;
    while i < n
        invariant
            i <= n,
            n == entries.sources@.len(),
            n == entries.contents@.len(),
            srcs_dv == entries.sources.deep_view(),
            ctns_dv == entries.contents.deep_view(),
            out.deep_view() == planned(host@, srcs_dv.take(i as int), ctns_dv.take(i as int)),
            forall|k: int| 0 <= k < out@.len() ==> starts_with(
                #[trigger] out.deep_view()[k].path,
                out_root(host@),
            ),
        decreases n - i,
    {
        proof {
            assert(srcs_dv.take(i + 1).drop_last() =~= srcs_dv.take(i as int));
            assert(ctns_dv.take(i + 1).drop_last() =~= ctns_dv.take(i as int));
            assert(srcs_dv.take(i + 1).last() == srcs_dv[i as int]);
            assert(ctns_dv.take(i + 1).last() == ctns_dv[i as int]);
            assert(srcs_dv[i as int] == entries.sources@[i as int]@);
            assert(ctns_dv[i as int] == entries.contents@[i as int].deep_view());
        }
        match &entries.contents[i] {
            Some(c) => {
                match plan_write(host, entries.sources[i].as_str(), c.as_str()) {
                    Ok(cmd) => {
                        let ghost prev = out.deep_view();
                        let ghost cv = cmd@;
                        proof {
                            assert(plan_entry(host@, srcs_dv[i as int], ctns_dv[i as int]) == Some(
                                cv,
                            ));
                        }
                        out.push(cmd);
                        proof {
                            assert(out.deep_view() =~= prev.push(cv));
                        }
                    },
                    Err(_) => {
                        proof {
                            assert(plan_entry(host@, srcs_dv[i as int], ctns_dv[i as int])
                                is None);
                        }
                    },
                }
            },
            None => {},
        }
        i += 1;
    }
    proof {
        assert(srcs_dv.take(n as int) =~= srcs_dv);
        assert(ctns_dv.take(n as int) =~= ctns_dv);
    }
    out
}

/// The logical paths of entries that hold contents but cannot be placed:
/// their sanitized path has no usable file component, so `planned` drops
/// them. In entry order.
pub open spec fn skipped_bad_paths(srcs: Seq<Seq<char>>, ctns: Seq<Option<Seq<char>>>) -> Seq<
    Seq<char>,
>
    decreases srcs.len(),
{
    if srcs.len() == 0 || ctns.len() == 0 {
        Seq::empty()
    } else {
        let rest = skipped_bad_paths(srcs.drop_last(), ctns.drop_last());
        if ctns.last() is Some && bad_file(file_part(sanitize(srcs.last()))) {
            rest.push(srcs.last())
        } else {
            rest
        }
    }
}

/// The entries of one decoded map that hold contents but cannot be placed,
/// for the caller to report before it performs the planned writes.
pub fn plan_map_skipped(entries: &SourceEntries) -> (r: Vec<String>)
    requires
        entries.wf(),
    ensures
        r.deep_view() == skipped_bad_paths(
            entries.sources.deep_view(),
            entries.contents.deep_view(),
        ),
{
    let ghost srcs_dv = entries.sources.deep_view();
    let ghost ctns_dv = entries.contents.deep_view();
    let mut out: Vec<String> = Vec::new();
    let n = entries.sources.len();
    let mut i: usize = 0;
    while i < n
        invariant
            i <= n,
            n == entries.sources@.len(),
            n == entries.contents@.len(),
            srcs_dv == entries.sources.deep_view(),
            ctns_dv == entries.contents.deep_view(),
            out.deep_view() == skipped_bad_paths(srcs_dv.take(i as int), ctns_dv.take(i as int)),
        decreases n - i,
    {
        proof {
            assert(srcs_dv.take(i + 1).drop_last() =~= srcs_dv.take(i as int));
            assert(ctns_dv.take(i + 1).drop_last() =~= ctns_dv.take(i as int));
            assert(srcs_dv.take(i + 1).last() == srcs_dv[i as int]);
            assert(ctns_dv.take(i + 1).last() == ctns_dv[i as int]);
            assert(srcs_dv[i as int] == entries.sources@[i as int]@);
            assert(ctns_dv[i as int] == entries.contents@[i as int].deep_view());
        }
        let has_contents = match &entries.contents[i] {
            Some(_) => true,
            None => false,
        };
        if has_contents && bad_file_check(entries.sources[i].as_str()) {
            let ghost prev = out.deep_view();
            out.push(entries.sources[i].clone());
            proof {
                assert(out.deep_view() =~= prev.push(srcs_dv[i as int]));
            }
        }
        i += 1;
    }
    proof {
        assert(srcs_dv.take(n as int) =~= srcs_dv);
        assert(ctns_dv.take(n as int) =~= ctns_dv);
    }
    out
}

/// One fetched body contributes the writes of the map it decodes to: for a
/// regular map exactly the planned writes of its named sources and
/// contents; for bytes that decode to neither shape, nothing; and in every
/// case only writes under the host-keyed root.
pub open spec fn body_segment_ok(host: Seq<char>, body: Seq<u8>, seg: Seq<WriteCmdView>) -> bool {
    &&& (decodes_flat(body) ==> seg == planned(
        host,
        flat_sources_of(body),
        flat_contents_of(body),
    ))
    &&& (!decodes_flat(body) && !decodes_indexed(body) ==> seg == Seq::<WriteCmdView>::empty())
    &&& (forall|k: int| 0 <= k < seg.len() ==> starts_with(#[trigger] seg[k].path, out_root(host)))
}

/// A whole run's writes are the bodies' segments, one per body in body
/// order, flattened.
pub open spec fn run_plan_ok(
    host: Seq<char>,
    bodies: Seq<Seq<u8>>,
    segs: Seq<Seq<WriteCmdView>>,
    r: Seq<WriteCmdView>,
) -> bool {
    &&& segs.len() == bodies.len()
    &&& r == segs.flatten()
    &&& forall|i: int| 0 <= i < bodies.len() ==> body_segment_ok(host, bodies[i], #[trigger] segs[i])
}

/// The writes a whole run yields, one segment per fetched body, in body
/// order: a body that decodes to a regular map contributes exactly the
/// planned writes of its named sources and contents; a body that decodes
/// to neither a regular nor an indexed map contributes nothing; and every
/// planned write lies under `./out/<host key>/`, whatever the bodies hold.
pub fn recover_sources(host: &str, bodies: &Vec<Vec<u8>>) -> (r: Vec<WriteCmd>)
    ensures
        exists|segs: Seq<Seq<WriteCmdView>>| run_plan_ok(
            host@,
            bodies.deep_view(),
            segs,
            r.deep_view(),
        ),
        forall|k: int| 0 <= k < r@.len() ==> starts_with(
            #[trigger] r.deep_view()[k].path,
            out_root(host@),
        ),
{
    let ghost bdv = bodies.deep_view();
    let mut out: Vec<WriteCmd> = Vec::new();
    let ghost mut segs: Seq<Seq<WriteCmdView>> = Seq::empty();
    let n = bodies.len();
    let mut i: usize = 0;
    while i < n
        invariant
            i <= n,
            n == bodies@.len(),
            bdv == bodies.deep_view(),
            segs.len() == i,
            out.deep_view() == segs.flatten(),
            forall|j: int| 0 <= j < i ==> body_segment_ok(host@, bdv[j], #[trigger] segs[j]),
            forall|k: int| 0 <= k < out@.len() ==> starts_with(
                #[trigger] out.deep_view()[k].path,
                out_root(host@),
            ),
        decreases n - i,
    {
        let ghost prev = out.deep_view();
        let ghost prev_segs = segs;
        proof {
            assert(bdv[i as int] =~= bodies@[i as int]@);
        }
        match load_from_slice(bodies[i].as_slice()) {
            Ok(entries) => {
                let mut cmds = plan_map_writes(host, &entries);
                let ghost cmds_dv = cmds.deep_view();
                out.append(&mut cmds);
                proof {
                    assert(out.deep_view() =~= prev + cmds_dv);
                    assert(body_segment_ok(host@, bdv[i as int], cmds_dv));
                    segs = segs.push(cmds_dv);
                    prev_segs.lemma_flatten_push(cmds_dv);
                    assert forall|k: int| 0 <= k < out@.len() implies starts_with(
                        #[trigger] out.deep_view()[k].path,
                        out_root(host@),
                    ) by {
                        if k < prev.len() {
                            assert(out.deep_view()[k] == prev[k]);
                        } else {
                            assert(out.deep_view()[k] == cmds_dv[k - prev.len()]);
                        }
                    }
                }
            },
            Err(_) => {
                proof {
                    assert(body_segment_ok(
                        host@,
                        bdv[i as int],
                        Seq::<WriteCmdView>::empty(),
                    ));
                    segs = segs.push(Seq::empty());
                    prev_segs.lemma_flatten_push(Seq::empty());
                    assert(out.deep_view() =~= prev + Seq::<WriteCmdView>::empty());
                }
            },
        }
        proof {
            assert forall|j: int| 0 <= j < i + 1 implies body_segment_ok(
                host@,
                bdv[j],
                #[trigger] segs[j],
            ) by {
                if j < i {
                    assert(segs[j] == prev_segs[j]);
                    assert(body_segment_ok(host@, bdv[j], prev_segs[j]));
                }
            }
        }
        i += 1;
    }
    proof {
        assert(run_plan_ok(host@, bodies.deep_view(), segs, out.deep_view()));
    }
    out
}

/// A run that fetched nothing plans nothing: the planned writes of an
/// empty source list are empty.
pub proof fn lemma_empty_plan(host: Seq<char>, ctns: Seq<Option<Seq<char>>>)
    ensures
        planned(host, Seq::empty(), ctns) == Seq::<WriteCmdView>::empty(),
{
}

/// Planning is deterministic: identical hosts and identical decoded
/// entries yield identical write sequences. The writes themselves put each
/// content verbatim at its computed path, so equal plans leave equal trees
/// to a caller that performs them in order.
pub proof fn lemma_plan_deterministic(
    host1: Seq<char>,
    host2: Seq<char>,
    srcs1: Seq<Seq<char>>,
    srcs2: Seq<Seq<char>>,
    ctns1: Seq<Option<Seq<char>>>,
    ctns2: Seq<Option<Seq<char>>>,
)
    requires
        host1 == host2,
        srcs1 == srcs2,
        ctns1 == ctns2,
    ensures
        planned(host1, srcs1, ctns1) == planned(host2, srcs2, ctns2),
{
}

} // verus!
