//! The assembly of a dataset's tables into one timeline of frames for each
//! scene. A frame names, by their positions in the tables, the camera records
//! of one sample and the labelled objects to project onto them.
//!
//! A reference that resolves to nothing, and a camera without its matrix,
//! spoil one entry only: the entry holds the fault in place of the record, and
//! the assembly goes on. A scene whose samples run in a circle ends the run.
use vstd::prelude::*;

use crate::chain::{chain, lemma_chain_links, nexts, walk};
use crate::channel::Channel;
use crate::index::{
    group, grouped, lemma_members_bound, lemma_position_some, locate, members, Index,
};
use crate::records::{keys, owners, Data, Tables};

verus! {

/// The table that a token was looked up in.
#[derive(Clone, Copy, Debug, PartialEq, Eq)]
pub enum Reference {
    Calibration,
    Sensor,
    Ego,
    Instance,
    Category,
}

/// Why an entry of a frame could not be made.
#[derive(Clone, Copy, Debug, PartialEq, Eq)]
pub enum Fault {
    /// A token resolves to nothing in the table `reference`. `from` is the
    /// position, in its own table, of the record that holds the token.
    Unresolved { reference: Reference, from: usize },
    /// The calibration of a camera holds no camera matrix.
    MissingIntrinsic { calibration: usize },
}

/// Why no timelines can be made of the tables.
#[derive(Clone, Copy, Debug, PartialEq, Eq)]
pub enum DataIntegrityError {
    /// The samples of the scene at this position run in a circle.
    Circular { scene: usize },
}

/// The size of an image, in pixels. Its file is that of the data record.
#[derive(Clone, Copy, Debug, PartialEq, Eq)]
pub struct Image {
    pub width: u32,
    pub height: u32,
}

/// What one camera contributes to a frame: positions in the tables of data,
/// vehicle poses and calibrations.
#[derive(Clone, Copy, Debug, PartialEq, Eq)]
pub struct DetectionRecord {
    pub channel: Channel,
    pub data: usize,
    pub image: Option<Image>,
    pub ego: usize,
    pub calibration: usize,
}

/// An object to project: positions in the tables of annotations, instances
/// and categories. The category's name is the object's label.
#[derive(Clone, Copy, Debug, PartialEq, Eq)]
pub struct Object {
    pub annotation: usize,
    pub instance: usize,
    pub category: usize,
}

/// One sample of a scene.
#[derive(Debug)]
pub struct Frame {
    /// The frame's place in its timeline, from 0.
    pub index: usize,
    /// The position of the sample.
    pub sample: usize,
    /// One entry for each data record of the sample on a camera channel.
    pub records: Vec<Result<DetectionRecord, Fault>>,
    /// One entry for each annotation of the sample.
    pub objects: Vec<Result<Object, Fault>>,
}

/// A frame, as a value of the model.
pub struct FrameView {
    pub index: usize,
    pub sample: usize,
    pub records: Seq<Result<DetectionRecord, Fault>>,
    pub objects: Seq<Result<Object, Fault>>,
}

impl View for Frame {
    type V = FrameView;

    open spec fn view(&self) -> FrameView {
        FrameView {
            index: self.index,
            sample: self.sample,
            records: self.records@,
            objects: self.objects@,
        }
    }
}

/// The frames of one scene, in the order of its samples.
#[derive(Debug)]
pub struct Timeline {
    /// The position of the scene.
    pub scene: usize,
    pub frames: Vec<Frame>,
}

/// A timeline, as a value of the model.
pub struct TimelineView {
    pub scene: usize,
    pub frames: Seq<FrameView>,
}

/// The frames of a sequence, each as a value of the model.
pub open spec fn frame_views(frames: Seq<Frame>) -> Seq<FrameView> {
    Seq::new(frames.len(), |i: int| frames[i]@)
}

impl View for Timeline {
    type V = TimelineView;

    open spec fn view(&self) -> TimelineView {
        TimelineView { scene: self.scene, frames: frame_views(self.frames@) }
    }
}

/// The timelines of a sequence, each as a value of the model.
pub open spec fn timeline_views(timelines: Seq<Timeline>) -> Seq<TimelineView> {
    Seq::new(timelines.len(), |i: int| timelines[i]@)
}

/// The image of a data record: present where both sizes are.
pub open spec fn image_of(data: Data) -> Option<Image> {
    match (data.width, data.height) {
        (Some(width), Some(height)) => Some(Image { width, height }),
        _ => None,
    }
}

/// The image of a data record.
pub fn image(data: &Data) -> (out: Option<Image>)
    ensures
        out == image_of(*data),
{
    match data.width {
        Some(width) => match data.height {
            Some(height) => Some(Image { width, height }),
            None => None,
        },
        None => None,
    }
}

/// The raw channel name of the sensor behind the data record at `d`, where
/// its calibration and that calibration's sensor resolve.
pub open spec fn raw_channel(t: &Tables, d: usize) -> Option<Seq<char>> {
    match locate(keys(t.calibrations@), t.datas@[d as int].calibrated_sensor_token@) {
        None => None,
        Some(c) => match locate(keys(t.sensors@), t.calibrations@[c as int].sensor_token@) {
            None => None,
            Some(s) => Some(t.sensors@[s as int].channel@),
        },
    }
}

/// The entry that the data record at `d` gives, or `None` where its sensor is
/// no camera. The calibration is resolved first, then its sensor; for a
/// camera, then the vehicle pose, and last the camera matrix is asked for.
pub open spec fn resolve(t: &Tables, d: usize) -> Option<Result<DetectionRecord, Fault>> {
    let data = t.datas@[d as int];
    match locate(keys(t.calibrations@), data.calibrated_sensor_token@) {
        None => Some(Err(Fault::Unresolved { reference: Reference::Calibration, from: d })),
        Some(c) => match locate(keys(t.sensors@), t.calibrations@[c as int].sensor_token@) {
            None => Some(Err(Fault::Unresolved { reference: Reference::Sensor, from: c })),
            Some(s) => match Channel::of(t.sensors@[s as int].channel@) {
                None => None,
                Some(channel) => match locate(keys(t.egos@), data.ego_pose_token@) {
                    None => Some(Err(Fault::Unresolved { reference: Reference::Ego, from: d })),
                    Some(ego) => if t.calibrations@[c as int].has_intrinsic {
                        Some(
                            Ok(
                                DetectionRecord {
                                    channel,
                                    data: d,
                                    image: image_of(data),
                                    ego,
                                    calibration: c,
                                },
                            ),
                        )
                    } else {
                        Some(Err(Fault::MissingIntrinsic { calibration: c }))
                    },
                },
            },
        },
    }
}

/// The entry that the annotation at `a` gives: its instance is resolved, then
/// the instance's category.
pub open spec fn label(t: &Tables, a: usize) -> Result<Object, Fault> {
    match locate(keys(t.instances@), t.annotations@[a as int].instance_token@) {
        None => Err(Fault::Unresolved { reference: Reference::Instance, from: a }),
        Some(i) => match locate(keys(t.categories@), t.instances@[i as int].category_token@) {
            None => Err(Fault::Unresolved { reference: Reference::Category, from: i }),
            Some(c) => Ok(Object { annotation: a, instance: i, category: c }),
        },
    }
}

/// The entries of the data records at `ds`, in that order, those of sensors
/// that are no cameras left out.
pub open spec fn records(t: &Tables, ds: Seq<usize>) -> Seq<Result<DetectionRecord, Fault>>
    decreases ds.len(),
{
    if ds.len() == 0 {
        Seq::empty()
    } else {
        match resolve(t, ds.last()) {
            Some(entry) => records(t, ds.drop_last()).push(entry),
            None => records(t, ds.drop_last()),
        }
    }
}

/// The entries of the annotations at `anns`, in that order.
pub open spec fn objects(t: &Tables, anns: Seq<usize>) -> Seq<Result<Object, Fault>> {
    Seq::new(anns.len(), |i: int| label(t, anns[i]))
}

/// The frame of the sample at `sample`: the entries of the data records and
/// of the annotations that refer to the sample's token, each in table order.
pub open spec fn frame(t: &Tables, index: usize, sample: usize) -> FrameView {
    let token = t.samples@[sample as int].token@;
    FrameView {
        index,
        sample,
        records: records(t, members(owners(t.datas@), token)),
        objects: objects(t, members(owners(t.annotations@), token)),
    }
}

/// One frame for each sample of a walk, numbered from 0 in the walk's order.
pub open spec fn frames(t: &Tables, walk: Seq<usize>) -> Seq<FrameView> {
    Seq::new(walk.len(), |i: int| frame(t, i as usize, walk[i]))
}

/// The samples of the scene at `s`, from its first sample on, or `None` where
/// they run in a circle.
pub open spec fn scene_walk(t: &Tables, s: usize) -> Option<Seq<usize>> {
    chain(
        keys(t.samples@),
        nexts(t.samples@),
        t.scenes@[s as int].first_sample_token@,
        t.samples@.len(),
    )
}

/// The timelines of the first `n` scenes, in table order. A scene whose token
/// a later scene carries too has none. The first scene that runs in a circle
/// is the error.
pub open spec fn timelines(t: &Tables, n: nat) -> Result<Seq<TimelineView>, DataIntegrityError>
    decreases n,
{
    if n == 0 {
        Ok(Seq::empty())
    } else {
        let s = (n - 1) as usize;
        match timelines(t, (n - 1) as nat) {
            Err(e) => Err(e),
            Ok(before) => if locate(keys(t.scenes@), t.scenes@[s as int].token@) != Some(s) {
                Ok(before)
            } else {
                match scene_walk(t, s) {
                    None => Err(DataIntegrityError::Circular { scene: s }),
                    Some(walk) => Ok(before.push(TimelineView { scene: s, frames: frames(t, walk) })),
                }
            },
        }
    }
}

/// The lookup indices of a dataset.
pub struct Store {
    scenes: Index,
    samples: Index,
    instances: Index,
    categories: Index,
    egos: Index,
    calibrations: Index,
    sensors: Index,
    datas_of: Vec<Vec<usize>>,
    annotations_of: Vec<Vec<usize>>,
}

impl Store {
    /// The store indexes the tables `t`.
    pub closed spec fn wf(&self, t: &Tables) -> bool {
        &&& self.scenes.wf() && self.scenes.tokens() == keys(t.scenes@)
        &&& self.samples.wf() && self.samples.tokens() == keys(t.samples@)
        &&& self.instances.wf() && self.instances.tokens() == keys(t.instances@)
        &&& self.categories.wf() && self.categories.tokens() == keys(t.categories@)
        &&& self.egos.wf() && self.egos.tokens() == keys(t.egos@)
        &&& self.calibrations.wf() && self.calibrations.tokens() == keys(t.calibrations@)
        &&& self.sensors.wf() && self.sensors.tokens() == keys(t.sensors@)
        &&& self.datas_of.len() == t.samples.len()
        &&& self.annotations_of.len() == t.samples.len()
        &&& forall|p: int|
            0 <= p < t.samples.len() ==> (#[trigger] self.datas_of[p])@ == grouped(
                keys(t.samples@),
                owners(t.datas@),
                p,
            )
        &&& forall|p: int|
            0 <= p < t.samples.len() ==> (#[trigger] self.annotations_of[p])@ == grouped(
                keys(t.samples@),
                owners(t.annotations@),
                p,
            )
    }

    /// Indexes every table by token, and groups data records and annotations
    /// by sample.
    pub fn build(t: &Tables) -> (out: Store)
        ensures
            out.wf(t),
    {
        let samples = Index::build(&t.samples);
        let datas_of = group(&samples, &t.datas);
        let annotations_of = group(&samples, &t.annotations);
        Store {
            scenes: Index::build(&t.scenes),
            samples,
            instances: Index::build(&t.instances),
            categories: Index::build(&t.categories),
            egos: Index::build(&t.egos),
            calibrations: Index::build(&t.calibrations),
            sensors: Index::build(&t.sensors),
            datas_of,
            annotations_of,
        }
    }

    /// The entry of the data record at `d`.
    pub fn resolve(&self, t: &Tables, d: usize) -> (out: Option<Result<DetectionRecord, Fault>>)
        requires
            self.wf(t),
            d < t.datas.len(),
        ensures
            out == resolve(t, d),
    {
        let data = &t.datas[d];
        let c = match self.calibrations.get(data.calibrated_sensor_token.as_str()) {
            Some(c) => c,
            None => {
                return Some(Err(Fault::Unresolved { reference: Reference::Calibration, from: d }));
            },
        };
        let calibration = &t.calibrations[c];
        let s = match self.sensors.get(calibration.sensor_token.as_str()) {
            Some(s) => s,
            None => {
                return Some(Err(Fault::Unresolved { reference: Reference::Sensor, from: c }));
            },
        };
        let channel = match Channel::parse(t.sensors[s].channel.as_str()) {
            Some(channel) => channel,
            None => {
                return None;
            },
        };
        let ego = match self.egos.get(data.ego_pose_token.as_str()) {
            Some(ego) => ego,
            None => {
                return Some(Err(Fault::Unresolved { reference: Reference::Ego, from: d }));
            },
        };
        if !calibration.has_intrinsic {
            return Some(Err(Fault::MissingIntrinsic { calibration: c }));
        }
        Some(Ok(DetectionRecord { channel, data: d, image: image(data), ego, calibration: c }))
    }

    /// The entry of the annotation at `a`.
    pub fn label(&self, t: &Tables, a: usize) -> (out: Result<Object, Fault>)
        requires
            self.wf(t),
            a < t.annotations.len(),
        ensures
            out == label(t, a),
    {
        let i = match self.instances.get(t.annotations[a].instance_token.as_str()) {
            Some(i) => i,
            None => {
                return Err(Fault::Unresolved { reference: Reference::Instance, from: a });
            },
        };
        match self.categories.get(t.instances[i].category_token.as_str()) {
            Some(c) => Ok(Object { annotation: a, instance: i, category: c }),
            None => Err(Fault::Unresolved { reference: Reference::Category, from: i }),
        }
    }

    /// The frame of the sample at `sample`, which is the sample that its own
    /// token resolves to, as every sample of a walk is.
    pub fn frame(&self, t: &Tables, index: usize, sample: usize) -> (out: Frame)
        requires
            self.wf(t),
            sample < t.samples.len(),
            locate(keys(t.samples@), t.samples@[sample as int].token@) == Some(sample),
        ensures
            out@ == frame(t, index, sample),
    {
        let ghost token = t.samples@[sample as int].token@;
        let ds = &self.datas_of[sample];
        let anns = &self.annotations_of[sample];
        proof {
            lemma_position_some(keys(t.samples@), token);
            assert(keys(t.samples@)[sample as int] == token);
            assert(ds@ == members(owners(t.datas@), token));
            assert(anns@ == members(owners(t.annotations@), token));
            assert(owners(t.datas@).len() == t.datas.len());
            assert(owners(t.annotations@).len() == t.annotations.len());
            lemma_members_bound(owners(t.datas@), token);
            lemma_members_bound(owners(t.annotations@), token);
        }
        let mut entries: Vec<Result<DetectionRecord, Fault>> = Vec::new();
        let mut j: usize = 0;
        while j < ds.len()
            invariant
                self.wf(t),
                j <= ds.len(),
                forall|k: int| 0 <= k < ds.len() ==> (#[trigger] ds[k]) < t.datas.len(),
                entries@ == records(t, ds@.take(j as int)),
            decreases ds.len() - j,
        {
            proof {
                assert(ds@.take(j + 1).drop_last() =~= ds@.take(j as int));
                assert(ds@.take(j + 1).last() == ds[j as int]);
            }
            match self.resolve(t, ds[j]) {
                Some(entry) => {
                    entries.push(entry);
                },
                None => {},
            }
            j += 1;
        }
        let mut labelled: Vec<Result<Object, Fault>> = Vec::new();
        let mut j: usize = 0;
        while j < anns.len()
            invariant
                self.wf(t),
                j <= anns.len(),
                forall|k: int| 0 <= k < anns.len() ==> (#[trigger] anns[k]) < t.annotations.len(),
                labelled@ == objects(t, anns@.take(j as int)),
            decreases anns.len() - j,
        {
            let entry = self.label(t, anns[j]);
            labelled.push(entry);
            proof {
                assert(labelled@ =~= objects(t, anns@.take(j + 1)));
            }
            j += 1;
        }
        proof {
            assert(ds@.take(ds.len() as int) =~= ds@);
            assert(anns@.take(anns.len() as int) =~= anns@);
        }
        Frame { index, sample, records: entries, objects: labelled }
    }

    /// The frames of the scene at `s`: one for each sample met from the
    /// scene's first sample on, or `None` where the samples run in a circle.
    pub fn scene(&self, t: &Tables, s: usize) -> (out: Option<Vec<Frame>>)
        requires
            self.wf(t),
            s < t.scenes.len(),
        ensures
            match scene_walk(t, s) {
                Some(walk) => out.is_some() && frame_views(out.unwrap()@) == frames(t, walk),
                None => out.is_none(),
            },
    {
        let met = match walk(&self.samples, &t.samples, t.scenes[s].first_sample_token.as_str()) {
            Some(met) => met,
            None => {
                return None;
            },
        };
        proof {
            lemma_chain_links(
                keys(t.samples@),
                nexts(t.samples@),
                t.scenes@[s as int].first_sample_token@,
                t.samples@.len(),
            );
        }
        let mut out: Vec<Frame> = Vec::new();
        let mut i: usize = 0;
        while i < met.len()
            invariant
                self.wf(t),
                i <= met.len(),
                out.len() == i,
                forall|k: int|
                    0 <= k < met.len() ==> {
                        &&& (#[trigger] met[k]) < t.samples.len()
                        &&& locate(keys(t.samples@), keys(t.samples@)[met[k] as int]) == Some(
                            met[k],
                        )
                    },
                frame_views(out@) == frames(t, met@.take(i as int)),
            decreases met.len() - i,
        {
            let ghost before = out@;
            let f = self.frame(t, i, met[i]);
            out.push(f);
            proof {
                assert forall|k: int| 0 <= k < i + 1 implies frame_views(out@)[k] == frames(
                    t,
                    met@.take(i + 1),
                )[k] by {
                    if k < i {
                        assert(frame_views(before)[k] == frames(t, met@.take(i as int))[k]);
                    }
                }
                assert(frame_views(out@) =~= frames(t, met@.take(i + 1)));
            }
            i += 1;
        }
        proof {
            assert(met@.take(met.len() as int) =~= met@);
        }
        Some(out)
    }
}

/// An error among the first scenes is the error of the whole table.
pub proof fn lemma_timelines_error(t: &Tables, n: nat, m: nat)
    requires
        n <= m,
        timelines(t, n).is_err(),
    ensures
        timelines(t, m) == timelines(t, n),
    decreases m,
{
    if n < m {
        lemma_timelines_error(t, n, (m - 1) as nat);
    }
}

/// Assembles the timelines of a dataset, one for each scene.
pub fn import(t: &Tables) -> (out: Result<Vec<Timeline>, DataIntegrityError>)
    ensures
        match out {
            Ok(v) => timelines(t, t.scenes@.len()) == Ok::<_, DataIntegrityError>(timeline_views(v@)),
            Err(e) => timelines(t, t.scenes@.len()) == Err::<Seq<TimelineView>, _>(e),
        },
{
    let store = Store::build(t);
    let mut out: Vec<Timeline> = Vec::new();
    let mut s: usize = 0;
    proof {
        assert(timeline_views(out@) =~= Seq::empty());
    }
    while s < t.scenes.len()
        invariant
            store.wf(t),
            s <= t.scenes.len(),
            timelines(t, s as nat) == Ok::<_, DataIntegrityError>(timeline_views(out@)),
        decreases t.scenes.len() - s,
    {
        let ghost before = out@;
        let found = store.scenes.get(t.scenes[s].token.as_str());
        proof {
            assert(keys(t.scenes@)[s as int] == t.scenes@[s as int].token@);
            assert((s + 1 - 1) as usize == s);
        }
        if found == Some(s) {
            match store.scene(t, s) {
                Some(frames) => {
                    out.push(Timeline { scene: s, frames });
                    proof {
                        assert(timeline_views(out@) =~= timeline_views(before).push(
                            out@.last()@,
                        ));
                    }
                },
                None => {
                    proof {
                        lemma_timelines_error(t, (s + 1) as nat, t.scenes@.len());
                    }
                    return Err(DataIntegrityError::Circular { scene: s });
                },
            }
        }
        s += 1;
    }
    Ok(out)
}


/// Only a camera gives a record: a record's channel is the one that the raw
/// channel name of its sensor stands for, and a data record whose sensor's
/// name stands for no channel gives no entry at all.
pub proof fn law_only_cameras(t: &Tables, d: usize)
    ensures
        match resolve(t, d) {
            Some(Ok(r)) => r.data == d && raw_channel(t, d).is_some() && Channel::of(
                raw_channel(t, d).unwrap(),
            ) == Some(r.channel),
            _ => true,
        },
        raw_channel(t, d).is_some() && Channel::of(raw_channel(t, d).unwrap()).is_none()
            ==> resolve(t, d).is_none(),
{
}

/// A data record whose calibration token resolves to nothing gives the fault
/// that says so, whatever else it holds.
pub proof fn law_unresolved_calibration(t: &Tables, d: usize)
    requires
        locate(keys(t.calibrations@), t.datas@[d as int].calibrated_sensor_token@).is_none(),
    ensures
        resolve(t, d) == Some(
            Err::<DetectionRecord, _>(Fault::Unresolved { reference: Reference::Calibration, from: d }),
        ),
{
}

/// Every entry of a frame is the entry of one of the sample's data records.
pub proof fn law_records_sound(t: &Tables, ds: Seq<usize>, k: int)
    requires
        0 <= k < records(t, ds).len(),
    ensures
        exists|j: int| 0 <= j < ds.len() && resolve(t, ds[j]) == Some(#[trigger] records(t, ds)[k]),
    decreases ds.len(),
{
    if ds.len() > 0 {
        let front = ds.drop_last();
        if k < records(t, front).len() {
            law_records_sound(t, front, k);
            let j = choose|j: int|
                0 <= j < front.len() && resolve(t, front[j]) == Some(records(t, front)[k]);
            assert(ds[j] == front[j]);
        } else {
            assert(resolve(t, ds[ds.len() - 1]) == Some(records(t, ds)[k]));
        }
    }
}

/// No entry is dropped: each data record of the sample that gives an entry,
/// a fault too, has it in the frame.
pub proof fn law_records_complete(t: &Tables, ds: Seq<usize>, j: int)
    requires
        0 <= j < ds.len(),
        resolve(t, ds[j]).is_some(),
    ensures
        records(t, ds).contains(resolve(t, ds[j]).unwrap()),
    decreases ds.len(),
{
    let front = ds.drop_last();
    if j < ds.len() - 1 {
        law_records_complete(t, front, j);
        let e = resolve(t, ds[j]).unwrap();
        let k = choose|k: int| 0 <= k < records(t, front).len() && records(t, front)[k] == e;
        assert(records(t, ds)[k] == e);
    } else {
        assert(records(t, ds).last() == resolve(t, ds[j]).unwrap());
    }
}

/// A record stands in a frame only for a camera: the raw channel name behind
/// each record of `records(t, ds)` stands for the record's channel.
pub proof fn law_frame_cameras(t: &Tables, ds: Seq<usize>, k: int)
    requires
        0 <= k < records(t, ds).len(),
        records(t, ds)[k].is_ok(),
    ensures
        ({
            let r = records(t, ds)[k].unwrap();
            &&& ds.contains(r.data)
            &&& raw_channel(t, r.data).is_some()
            &&& Channel::of(raw_channel(t, r.data).unwrap()) == Some(r.channel)
        }),
{
    law_records_sound(t, ds, k);
    let j = choose|j: int| 0 <= j < ds.len() && resolve(t, ds[j]) == Some(records(t, ds)[k]);
    law_only_cameras(t, ds[j]);
}

/// A scene whose walk meets `N` samples has `N` frames, numbered from 0 in
/// the walk's order, each for the sample met at its number.
pub proof fn law_frames_follow_walk(t: &Tables, s: usize)
    requires
        s < t.scenes@.len(),
        scene_walk(t, s).is_some(),
    ensures
        ({
            let walk = scene_walk(t, s).unwrap();
            let fs = frames(t, walk);
            &&& fs.len() == walk.len()
            &&& forall|i: int|
                0 <= i < walk.len() ==> (#[trigger] fs[i]).index == i && fs[i].sample == walk[i]
        }),
{
    assert(keys(t.samples@).len() == nexts(t.samples@).len());
    assert(keys(t.samples@).len() == t.samples.len());
    lemma_chain_links(
        keys(t.samples@),
        nexts(t.samples@),
        t.scenes@[s as int].first_sample_token@,
        t.samples@.len(),
    );
}

/// Each timeline is that of a scene which its own token resolves to, holds
/// the frames of that scene's walk, and the timelines stand in table order.
pub proof fn law_timelines(t: &Tables, n: nat, j: int)
    requires
        n <= t.scenes@.len(),
        timelines(t, n).is_ok(),
        0 <= j < timelines(t, n).unwrap().len(),
    ensures
        ({
            let line = timelines(t, n).unwrap()[j];
            &&& line.scene < n
            &&& locate(keys(t.scenes@), t.scenes@[line.scene as int].token@) == Some(line.scene)
            &&& scene_walk(t, line.scene).is_some()
            &&& line.frames == frames(t, scene_walk(t, line.scene).unwrap())
            &&& j > 0 ==> timelines(t, n).unwrap()[j - 1].scene < line.scene
        }),
    decreases n,
{
    if n > 0 {
        assert(n <= t.scenes.len());
        let before = timelines(t, (n - 1) as nat).unwrap();
        if j < before.len() {
            law_timelines(t, (n - 1) as nat, j);
        } else if j > 0 {
            law_timelines(t, (n - 1) as nat, j - 1);
        }
    }
}

/// A timeline has one frame for each sample of its scene's walk, numbered
/// from 0 in the walk's order.
pub proof fn law_timeline_frames(t: &Tables, n: nat, j: int)
    requires
        n <= t.scenes@.len(),
        timelines(t, n).is_ok(),
        0 <= j < timelines(t, n).unwrap().len(),
    ensures
        ({
            let line = timelines(t, n).unwrap()[j];
            let walk = scene_walk(t, line.scene).unwrap();
            &&& scene_walk(t, line.scene).is_some()
            &&& line.frames.len() == walk.len()
            &&& forall|i: int|
                0 <= i < walk.len() ==> (#[trigger] line.frames[i]).index == i
                    && line.frames[i].sample == walk[i]
        }),
{
    law_timelines(t, n, j);
    law_frames_follow_walk(t, timelines(t, n).unwrap()[j].scene);
}

/// No record of any timeline is that of a sensor whose raw channel name is
/// no camera's: the name behind each record stands for the record's channel.
pub proof fn law_timeline_cameras(t: &Tables, n: nat, j: int, i: int, k: int)
    requires
        n <= t.scenes@.len(),
        timelines(t, n).is_ok(),
        0 <= j < timelines(t, n).unwrap().len(),
        0 <= i < timelines(t, n).unwrap()[j].frames.len(),
        0 <= k < timelines(t, n).unwrap()[j].frames[i].records.len(),
        timelines(t, n).unwrap()[j].frames[i].records[k].is_ok(),
    ensures
        ({
            let r = timelines(t, n).unwrap()[j].frames[i].records[k].unwrap();
            &&& raw_channel(t, r.data).is_some()
            &&& Channel::of(raw_channel(t, r.data).unwrap()) == Some(r.channel)
        }),
{
    law_timelines(t, n, j);
    let line = timelines(t, n).unwrap()[j];
    let walk = scene_walk(t, line.scene).unwrap();
    let token = t.samples@[walk[i] as int].token@;
    assert(line.frames[i] == frame(t, i as usize, walk[i]));
    law_frame_cameras(t, members(owners(t.datas@), token), k);
}

} // verus!
