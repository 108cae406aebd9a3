//! End-to-end scenarios: whole frames recorded, compiled and executed.

use framegraph::{
    Barrier, DepthDesc, DepthFormat, FrameGraph, HeapOp, InitialResourceState, RenderTargetDesc,
    TextureFormat, TextureSize, TransitionFlags,
};

fn new_graph() -> FrameGraph {
    FrameGraph::new(0x10000, 32, 0x20000, 32)
}

fn rt_desc(format: TextureFormat, size: TextureSize) -> RenderTargetDesc {
    RenderTargetDesc { format, size, mip_levels: 1, state: InitialResourceState::Clear }
}

fn depth_desc() -> DepthDesc {
    DepthDesc { format: DepthFormat::D32, size: TextureSize::Full, state: InitialResourceState::Clear }
}

fn rt_flags() -> TransitionFlags {
    TransitionFlags { render_target: true, shader_resource: false, depth_write: false, depth_read: false }
}

fn srv_flags() -> TransitionFlags {
    TransitionFlags { render_target: false, shader_resource: true, depth_write: false, depth_read: false }
}

fn dw_flags() -> TransitionFlags {
    TransitionFlags { render_target: false, shader_resource: false, depth_write: true, depth_read: false }
}

fn dr_srv_flags() -> TransitionFlags {
    TransitionFlags { render_target: false, shader_resource: true, depth_write: false, depth_read: true }
}

fn count_heap_creates(ops: &[HeapOp]) -> usize {
    ops.iter().filter(|op| matches!(op, HeapOp::CreateHeap { .. })).count()
}

fn count_placed_creates(ops: &[HeapOp]) -> usize {
    ops.iter().filter(|op| matches!(op, HeapOp::CreatePlacedResource { .. })).count()
}

/// Records the dead-branch graph: P1 creates A, P2 creates B and reads A
/// (B is never read), P3 only reads A.
fn record_s1(fg: &mut FrameGraph, b_format: TextureFormat, b_size: TextureSize) {
    let mut b = fg.builder();
    let a = b.create_render_target("A", rt_desc(TextureFormat::RGBA8, TextureSize::Full));
    fg.add_pass("P1", b, &a);

    let mut b = fg.builder();
    let bb = b.create_render_target("B", rt_desc(b_format, b_size));
    let _ = b.read_srv(&a);
    fg.add_pass("P2", b, &bb);

    let mut b = fg.builder();
    let sr = b.read_srv(&a);
    fg.add_pass("P3", b, &sr);
}

#[test]
fn dead_branch_culls_unread_producer() {
    let mut fg = new_graph();
    record_s1(&mut fg, TextureFormat::RGBA8, TextureSize::Full);
    let _ = fg.compile();

    // P2's output B is never read, so P2 is culled; P3 writes nothing and
    // survives.
    assert_eq!(fg.renderpasses.len(), 2);
    assert_eq!(fg.renderpasses[0].name, "P1");
    assert_eq!(fg.renderpasses[1].name, "P3");

    // A spans the whole surviving pass list.
    assert_eq!(fg.resources[0].lifetime.start, 0);
    assert_eq!(fg.resources[0].lifetime.end, 1);

    // B is referenced by nothing that survived.
    assert_eq!(fg.resources[1].refcount, 0);
}

#[test]
fn aliasing_disjoint_lifetimes_share_one_heap() {
    let mut fg = new_graph();

    let mut b = fg.builder();
    let a = b.create_render_target("A", rt_desc(TextureFormat::R8, TextureSize::Explicit(1920, 1080)));
    fg.add_pass("P1", b, &a);

    let mut b = fg.builder();
    let sr = b.read_srv(&a);
    fg.add_pass("P2", b, &sr);

    let mut b = fg.builder();
    let c = b.create_render_target("B", rt_desc(TextureFormat::R8, TextureSize::Explicit(1920, 1080)));
    fg.add_pass("P3", b, &c);

    let mut b = fg.builder();
    let sr = b.read_srv(&c);
    fg.add_pass("P4", b, &sr);

    let _ = fg.compile();

    // lifetimes [0,1] and [2,3] are disjoint: one heap, both at offset 0
    assert_eq!(fg.resources[0].lifetime.start, 0);
    assert_eq!(fg.resources[0].lifetime.end, 1);
    assert_eq!(fg.resources[1].lifetime.start, 2);
    assert_eq!(fg.resources[1].lifetime.end, 3);
    assert_eq!(fg.heaps.current_layout.len(), 1);
    let entry = fg.heaps.current();
    assert_eq!(entry.indices.len(), 2);
    assert_eq!(entry.indices[0], (0, 0));
    assert_eq!(entry.indices[1], (0, 0));
}

/// Records the read-batch graph: P1 writes RT, P2 and P3 sample it, P4
/// writes it again.
fn record_s3(fg: &mut FrameGraph) {
    let mut b = fg.builder();
    let rt = b.create_render_target("RT", rt_desc(TextureFormat::RGBA8, TextureSize::Full));
    fg.add_pass("P1", b, &rt);

    let mut b = fg.builder();
    let sr = b.read_srv(&rt);
    fg.add_pass("P2", b, &sr);

    let mut b = fg.builder();
    let sr = b.read_srv(&rt);
    fg.add_pass("P3", b, &sr);

    let mut b = fg.builder();
    let w = b.create_render_target("RT2", rt_desc(TextureFormat::RGBA8, TextureSize::Full));
    let _ = b.read_srv(&rt);
    fg.add_pass("P4", b, &w);
}

#[test]
fn read_batch_transitions() {
    let mut fg = new_graph();

    let mut b = fg.builder();
    let rt = b.create_render_target("RT", rt_desc(TextureFormat::RGBA8, TextureSize::Full));
    fg.add_pass("P1", b, &rt);

    let mut b = fg.builder();
    let sr = b.read_srv(&rt);
    fg.add_pass("P2", b, &sr);

    let mut b = fg.builder();
    let sr = b.read_srv(&rt);
    fg.add_pass("P3", b, &sr);

    let mut b = fg.builder();
    let sr = b.read_srv(&rt);
    fg.add_pass("P4", b, &sr);

    let _ = fg.compile();

    // one batched transition into the read state before the first read;
    // the later reads see the resource already in it
    assert_eq!(fg.renderpass_transitions[0].len(), 0);
    assert_eq!(fg.renderpass_transitions[1].len(), 1);
    assert_eq!(fg.renderpass_transitions[1][0].resource, 0);
    assert_eq!(fg.renderpass_transitions[1][0].from, rt_flags());
    assert_eq!(fg.renderpass_transitions[1][0].to, srv_flags());
    assert_eq!(fg.renderpass_transitions[2].len(), 0);
    assert_eq!(fg.renderpass_transitions[3].len(), 0);
}

#[test]
fn write_after_reads_forces_fresh_transition() {
    let mut fg = new_graph();

    let mut b = fg.builder();
    let d = b.create_depth("D", depth_desc());
    fg.add_pass("P1", b, &d);

    let mut b = fg.builder();
    let dr = b.read_depth(&d);
    fg.add_pass("P2", b, &dr);

    let mut b = fg.builder();
    let sr = b.read_srv(&d);
    fg.add_pass("P3", b, &sr);

    let mut b = fg.builder();
    let dw = b.write_depth(dr);
    fg.add_pass("P4", b, &dw);

    let _ = fg.compile();

    // reads batch: one transition into the union of both read states
    // before the first read, none before the second; the write flips back
    // with a fresh transition
    assert_eq!(fg.renderpass_transitions[1].len(), 1);
    assert_eq!(fg.renderpass_transitions[1][0].from, dw_flags());
    assert_eq!(fg.renderpass_transitions[1][0].to, dr_srv_flags());
    assert_eq!(fg.renderpass_transitions[2].len(), 0);
    assert_eq!(fg.renderpass_transitions[3].len(), 1);
    assert_eq!(fg.renderpass_transitions[3][0].from, dr_srv_flags());
    assert_eq!(fg.renderpass_transitions[3][0].to, dw_flags());
}

#[test]
fn depth_flip_transitions() {
    let mut fg = new_graph();

    let mut b = fg.builder();
    let d = b.create_depth("D", depth_desc());
    fg.add_pass("P1", b, &d);

    let mut b = fg.builder();
    let dr = b.read_depth(&d);
    let _sr = b.read_srv(&d);
    fg.add_pass("P2", b, &dr);

    let mut b = fg.builder();
    let dw = b.write_depth(dr);
    fg.add_pass("P3", b, &dw);

    let _ = fg.compile();

    // no culling: P2 writes nothing, P1 and P3 feed it
    assert_eq!(fg.renderpasses.len(), 3);

    // before P2: depth-write -> depth-read | shader-resource
    assert_eq!(fg.renderpass_transitions[1].len(), 1);
    assert_eq!(fg.renderpass_transitions[1][0].resource, 0);
    assert_eq!(fg.renderpass_transitions[1][0].from, dw_flags());
    assert_eq!(fg.renderpass_transitions[1][0].to, dr_srv_flags());

    // before P3: depth-read | shader-resource -> depth-write
    assert_eq!(fg.renderpass_transitions[2].len(), 1);
    assert_eq!(fg.renderpass_transitions[2][0].resource, 0);
    assert_eq!(fg.renderpass_transitions[2][0].from, dr_srv_flags());
    assert_eq!(fg.renderpass_transitions[2][0].to, dw_flags());

    // nothing before P1
    assert_eq!(fg.renderpass_transitions[0].len(), 0);
}

#[test]
fn cache_hit_on_recompile() {
    let mut fg = new_graph();
    record_s3(&mut fg);
    let first_ops = fg.compile();
    assert!(count_heap_creates(&first_ops) > 0);
    let hash = fg.heaps.cache[0].hash;
    fg.finish();

    record_s3(&mut fg);
    let second_ops = fg.compile();

    // the second compile is a pure cache hit: no device work at all
    assert_eq!(second_ops.len(), 0);
    assert_eq!(fg.heaps.cache[0].hash, hash);
}

#[test]
fn graph_mutation_carries_heaps_over() {
    let mut fg = new_graph();
    record_s1(&mut fg, TextureFormat::RGBA8, TextureSize::Full);
    let _ = fg.compile();
    let heaps_before: Vec<u64> = fg.heaps.current_layout.iter().map(|h| h.id).collect();
    fg.finish();

    // same graph with B replaced by a target of identical byte size but a
    // different descriptor: 2560x1440 single-channel equals 1280x720 RGBA
    record_s1(&mut fg, TextureFormat::R8, TextureSize::Explicit(2560, 1440));
    let ops = fg.compile();

    // the heaps are carried over by size slot; only the replaced slot's
    // placed resource is re-created
    assert_eq!(count_heap_creates(&ops), 0);
    assert_eq!(count_placed_creates(&ops), 1);
    let heaps_after: Vec<u64> = fg.heaps.current_layout.iter().map(|h| h.id).collect();
    assert_eq!(heaps_before, heaps_after);
}

#[test]
fn state_carry_over_seeds_next_frame() {
    let mut fg = new_graph();
    record_s3(&mut fg);
    let _ = fg.compile();
    // RT ends the frame in the shader-resource state (the final reads
    // batched; the re-write targets RT2... RT's last access is the read at P4)
    fg.finish();

    record_s3(&mut fg);
    let _ = fg.compile();

    // the first barrier of RT's new frame uses last frame's final state as
    // its `from`
    let first = fg.renderpass_transitions[0]
        .iter()
        .find(|t| t.resource == 0)
        .expect("carry-over transition");
    assert_eq!(first.to, rt_flags());
    assert_eq!(first.from, srv_flags());
}

#[test]
fn exec_plans_alias_barriers_and_handles() {
    let mut fg = new_graph();

    let mut b = fg.builder();
    let a = b.create_render_target("A", rt_desc(TextureFormat::RGBA8, TextureSize::Full));
    fg.add_pass("P1", b, &a);

    let mut b = fg.builder();
    let sr = b.read_srv(&a);
    fg.add_pass("P2", b, &sr);

    let _ = fg.compile();
    let plan = fg.exec();
    assert_eq!(plan.len(), 2);

    // the first pass to touch A emits its aliasing barrier
    assert!(plan[0].barriers.contains(&Barrier::Alias { resource: 0 }));
    assert!(!plan[1].barriers.iter().any(|b| matches!(b, Barrier::Alias { .. })));

    // P1's parameter: the CPU descriptor of view 0
    assert_eq!(plan[0].params.len(), 1);
    assert_eq!(plan[0].params[0], (true, 0x20000));
    assert_eq!(plan[0].param_size, 8);

    // P2's parameter: the GPU descriptor of A's view slot
    assert_eq!(plan[1].params.len(), 1);
    assert_eq!(plan[1].params[0], (false, 0x10000));
}

#[test]
fn empty_frame_compiles() {
    let mut fg = new_graph();
    let ops = fg.compile();
    assert_eq!(count_heap_creates(&ops), 0);
    let plan = fg.exec();
    assert!(plan.is_empty());
    fg.finish();
}

#[test]
fn passes_without_writes_all_survive() {
    let mut fg = new_graph();

    let mut b = fg.builder();
    let a = b.create_render_target("A", rt_desc(TextureFormat::RGBA8, TextureSize::Half));
    fg.add_pass("producer", b, &a);

    // three passes that write nothing: all must survive, whatever they read
    for name in ["consume1", "consume2", "consume3"] {
        let mut b = fg.builder();
        let sr = b.read_srv(&a);
        fg.add_pass(name, b, &sr);
    }

    let _ = fg.compile();
    assert_eq!(fg.renderpasses.len(), 4);
}

#[test]
fn creation_flags_follow_usage_union() {
    let mut fg = new_graph();

    let mut b = fg.builder();
    let d = b.create_depth("D", depth_desc());
    fg.add_pass("P1", b, &d);

    let mut b = fg.builder();
    let sr = b.read_srv(&d);
    fg.add_pass("P2", b, &sr);

    let _ = fg.compile();

    // depth-write usage allows depth-stencil views; reads add no creation flag
    assert_eq!(fg.resources[0].desc.flags, 0x2);
}

#[test]
fn finish_keeps_heap_cache() {
    let mut fg = new_graph();
    record_s3(&mut fg);
    let _ = fg.compile();
    let layout: Vec<(u64, u64)> = fg.heaps.current_layout.iter().map(|h| (h.id, h.size)).collect();
    fg.finish();

    assert_eq!(fg.renderpasses.len(), 0);
    assert_eq!(fg.resources.len(), 0);
    assert_eq!(fg.views.len(), 0);
    let after: Vec<(u64, u64)> = fg.heaps.current_layout.iter().map(|h| (h.id, h.size)).collect();
    assert_eq!(layout, after);
    assert!(fg.heaps.cache[0].used);
}

#[test]
fn steady_state_frames_do_no_device_work() {
    let mut fg = new_graph();
    for frame in 0..5 {
        record_s3(&mut fg);
        let ops = fg.compile();
        if frame > 0 {
            assert!(ops.is_empty());
        }
        let _ = fg.exec();
        fg.finish();
    }
}

#[test]
fn packed_layout_is_aliasing_safe() {
    let mut fg = new_graph();

    // a mix of overlapping and disjoint lifetimes over equal-sized targets
    let mut handles = Vec::new();
    for (i, name) in ["T0", "T1", "T2", "T3"].iter().enumerate() {
        let mut b = fg.builder();
        let t = b.create_render_target(name, rt_desc(TextureFormat::R8, TextureSize::Explicit(512, 512)));
        fg.add_pass(name, b, &t);
        handles.push(t);
        if i % 2 == 1 {
            // read both targets of the pair so their lifetimes overlap
            let mut b = fg.builder();
            let s0 = b.read_srv(&handles[i - 1]);
            let _s1 = b.read_srv(&handles[i]);
            fg.add_pass("mix", b, &s0);
        }
    }

    let _ = fg.compile();

    let entry = fg.heaps.current();
    for i in 0..entry.resources.len() {
        for j in 0..entry.resources.len() {
            if i == j {
                continue;
            }
            let (hi, oi) = entry.indices[i];
            let (hj, oj) = entry.indices[j];
            let (ri, rj) = (&entry.resources[i], &entry.resources[j]);
            let bytes_overlap = hi == hj && oi < oj + rj.size && oj < oi + ri.size;
            if bytes_overlap {
                assert!(
                    ri.lifetime.end < rj.lifetime.start || rj.lifetime.end < ri.lifetime.start,
                    "resources {i} and {j} alias while alive"
                );
            }
        }
    }
}

#[test]
fn cache_hit_promotes_entry_to_front() {
    let mut fg = new_graph();

    // frame A, then frame B, then frame A again
    record_s3(&mut fg);
    let _ = fg.compile();
    let hash_a = fg.heaps.cache[0].hash;
    fg.finish();

    record_s1(&mut fg, TextureFormat::RGBA8, TextureSize::Full);
    let _ = fg.compile();
    let hash_b = fg.heaps.cache[0].hash;
    fg.finish();

    record_s3(&mut fg);
    let ops = fg.compile();

    // the hit is promoted: the front slot holds frame A's layout again and
    // no device work happened
    assert_eq!(ops.len(), 0);
    assert_eq!(fg.heaps.current().hash, hash_a);
    assert_eq!(fg.heaps.cache[1].hash, hash_b);
}
