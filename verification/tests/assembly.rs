use std::path::PathBuf;

use stremf::assemble::{
    import, DetectionRecord, Fault, Frame, Image, DataIntegrityError, Object, Reference, Store,
};
use stremf::chain::walk;
use stremf::channel::Channel;
use stremf::config::Configuration;
use stremf::index::{group, Index};
use stremf::records::{
    Annotation, Calibration, Category, Data, Ego, Instance, Sample, Scene, Sensor, Tables,
};
use stremf::schema::{NuScenes, SchemaKind};

fn text(s: &str) -> String {
    String::from(s)
}

fn scene(token: &str, first: &str, last: &str, count: i32) -> Scene {
    Scene {
        token: text(token),
        name: text("scene"),
        description: text(""),
        log_token: text("log"),
        nbr_samples: count,
        first_sample_token: text(first),
        last_sample_token: text(last),
    }
}

fn sample(token: &str, scene: &str, prev: &str, next: &str) -> Sample {
    Sample { token: text(token), scene_token: text(scene), next: text(next), prev: text(prev) }
}

fn data(token: &str, sample: &str, ego: &str, calibration: &str, size: Option<(u32, u32)>) -> Data {
    Data {
        token: text(token),
        is_key_frame: true,
        width: size.map(|s| s.0),
        height: size.map(|s| s.1),
        fileformat: text("jpg"),
        filename: format!("samples/{}.jpg", token),
        ego_pose_token: text(ego),
        sample_token: text(sample),
        calibrated_sensor_token: text(calibration),
        next: text(""),
        prev: text(""),
    }
}

fn annotation(token: &str, sample: &str, instance: &str) -> Annotation {
    Annotation {
        token: text(token),
        sample_token: text(sample),
        instance_token: text(instance),
        attribute_tokens: vec![],
        visibility_token: text("4"),
        num_lidar_pts: 1,
        num_radar_pts: 0,
        next: text(""),
        prev: text(""),
    }
}

fn instance(token: &str, category: &str) -> Instance {
    Instance {
        token: text(token),
        category_token: text(category),
        nbr_annotations: 1,
        first_annotation_token: text(""),
        last_annotation_token: text(""),
    }
}

fn calibration(token: &str, sensor: &str, has_intrinsic: bool) -> Calibration {
    Calibration { token: text(token), sensor_token: text(sensor), has_intrinsic }
}

fn sensor(token: &str, modality: &str, channel: &str) -> Sensor {
    Sensor { token: text(token), modality: text(modality), channel: text(channel) }
}

/// Two scenes, of three samples and of one, each sample seen by one camera
/// and one lidar.
fn two_scenes() -> Tables {
    let mut datas = Vec::new();
    for s in ["a1", "a2", "a3", "b1"] {
        datas.push(data(&format!("lidar-{}", s), s, "ego", "cal-lidar", None));
        datas.push(data(&format!("cam-{}", s), s, "ego", "cal-cam", Some((1600, 900))));
    }
    Tables {
        scenes: vec![scene("A", "a1", "a3", 3), scene("B", "b1", "b1", 1)],
        samples: vec![
            sample("a2", "A", "a1", "a3"),
            sample("b1", "B", "", ""),
            sample("a1", "A", "", "a2"),
            sample("a3", "A", "a2", ""),
        ],
        annotations: vec![
            annotation("n0", "a1", "i0"),
            annotation("n1", "a2", "i1"),
            annotation("n2", "a1", "i1"),
            annotation("n3", "zz", "i0"),
        ],
        datas,
        instances: vec![instance("i0", "c0"), instance("i1", "c1")],
        categories: vec![
            Category { token: text("c0"), name: text("car") },
            Category { token: text("c1"), name: text("pedestrian") },
        ],
        egos: vec![Ego { token: text("ego") }],
        calibrations: vec![calibration("cal-cam", "s-cam", true), calibration("cal-lidar", "s-lidar", false)],
        sensors: vec![sensor("s-lidar", "lidar", "LIDAR_TOP"), sensor("s-cam", "camera", "CAM_FRONT")],
    }
}

fn camera(data: usize) -> Result<DetectionRecord, Fault> {
    Ok(DetectionRecord {
        channel: Channel::Front,
        data,
        image: Some(Image { width: 1600, height: 900 }),
        ego: 0,
        calibration: 0,
    })
}

fn samples_of(frames: &Vec<Frame>) -> Vec<usize> {
    frames.iter().map(|f| f.sample).collect()
}

fn indices_of(frames: &Vec<Frame>) -> Vec<usize> {
    frames.iter().map(|f| f.index).collect()
}

#[test]
fn two_scenes_give_two_timelines() {
    let tables = two_scenes();
    let lines = import(&tables).unwrap();
    assert_eq!(lines.len(), 2);
    assert_eq!(lines[0].scene, 0);
    assert_eq!(lines[1].scene, 1);
    assert_eq!(lines[0].frames.len(), 3);
    assert_eq!(lines[1].frames.len(), 1);
    assert_eq!(indices_of(&lines[0].frames), vec![0, 1, 2]);
    assert_eq!(samples_of(&lines[0].frames), vec![2, 0, 3]);
    assert_eq!(indices_of(&lines[1].frames), vec![0]);
    assert_eq!(samples_of(&lines[1].frames), vec![1]);
}

#[test]
fn the_lidar_gives_no_record() {
    let tables = two_scenes();
    let lines = import(&tables).unwrap();
    assert_eq!(lines[0].frames[0].records, vec![camera(1)]);
    assert_eq!(lines[0].frames[1].records, vec![camera(3)]);
    assert_eq!(lines[0].frames[2].records, vec![camera(5)]);
    assert_eq!(lines[1].frames[0].records, vec![camera(7)]);
    for line in &lines {
        for frame in &line.frames {
            for entry in &frame.records {
                let record = entry.unwrap();
                let c = &tables.calibrations[record.calibration];
                assert_eq!(c.sensor_token, "s-cam");
                assert_eq!(record.channel, Channel::Front);
            }
        }
    }
}

#[test]
fn objects_are_those_of_the_sample() {
    let tables = two_scenes();
    let lines = import(&tables).unwrap();
    assert_eq!(
        lines[0].frames[0].objects,
        vec![
            Ok(Object { annotation: 0, instance: 0, category: 0 }),
            Ok(Object { annotation: 2, instance: 1, category: 1 }),
        ]
    );
    assert_eq!(
        lines[0].frames[1].objects,
        vec![Ok(Object { annotation: 1, instance: 1, category: 1 })]
    );
    assert_eq!(lines[0].frames[2].objects, vec![]);
    assert_eq!(lines[1].frames[0].objects, vec![]);
}

#[test]
fn the_reader_imports_as_the_function_does() {
    let tables = two_scenes();
    let config = Configuration {
        infile: Some(PathBuf::from("in")),
        outfile: PathBuf::from("out"),
        schema: SchemaKind::NuScenes,
        debug: true,
    };
    let reader = NuScenes::new(PathBuf::from("in"), &config);
    let lines = reader.import(&tables).unwrap();
    assert_eq!(lines.len(), 2);
    assert_eq!(lines[0].frames.len(), 3);
    assert_eq!(lines[1].frames.len(), 1);
    assert_eq!(
        reader.image(&tables.datas[1]),
        Some(Image { width: 1600, height: 900 })
    );
    assert_eq!(reader.image(&tables.datas[0]), None);
}

#[test]
fn an_image_needs_both_sizes() {
    let mut d = data("d", "s", "e", "c", Some((640, 480)));
    assert_eq!(stremf::assemble::image(&d), Some(Image { width: 640, height: 480 }));
    d.height = None;
    assert_eq!(stremf::assemble::image(&d), None);
    d.height = Some(480);
    d.width = None;
    assert_eq!(stremf::assemble::image(&d), None);
}

#[test]
fn a_missing_calibration_is_reported() {
    let mut tables = two_scenes();
    tables.datas[3].calibrated_sensor_token = text("nowhere");
    let store = Store::build(&tables);
    assert_eq!(
        store.resolve(&tables, 3),
        Some(Err(Fault::Unresolved { reference: Reference::Calibration, from: 3 }))
    );
    let lines = import(&tables).unwrap();
    assert_eq!(lines[0].frames.len(), 3);
    assert_eq!(
        lines[0].frames[1].records,
        vec![Err(Fault::Unresolved { reference: Reference::Calibration, from: 3 })]
    );
    assert_eq!(lines[0].frames[0].records, vec![camera(1)]);
    assert_eq!(lines[0].frames[2].records, vec![camera(5)]);
}

#[test]
fn a_missing_sensor_is_reported() {
    let mut tables = two_scenes();
    tables.calibrations[1].sensor_token = text("nowhere");
    let store = Store::build(&tables);
    assert_eq!(
        store.resolve(&tables, 0),
        Some(Err(Fault::Unresolved { reference: Reference::Sensor, from: 1 }))
    );
    assert_eq!(store.resolve(&tables, 1), Some(camera(1)));
}

#[test]
fn a_missing_pose_is_reported_for_a_camera_only() {
    let mut tables = two_scenes();
    tables.datas[0].ego_pose_token = text("nowhere");
    tables.datas[1].ego_pose_token = text("nowhere");
    let store = Store::build(&tables);
    assert_eq!(store.resolve(&tables, 0), None);
    assert_eq!(
        store.resolve(&tables, 1),
        Some(Err(Fault::Unresolved { reference: Reference::Ego, from: 1 }))
    );
}

#[test]
fn a_camera_without_matrix_is_reported() {
    let mut tables = two_scenes();
    tables.calibrations[0].has_intrinsic = false;
    let lines = import(&tables).unwrap();
    assert_eq!(lines.len(), 2);
    assert_eq!(
        lines[1].frames[0].records,
        vec![Err(Fault::MissingIntrinsic { calibration: 0 })]
    );
}

#[test]
fn a_missing_instance_or_category_is_reported() {
    let mut tables = two_scenes();
    tables.annotations[0].instance_token = text("nowhere");
    tables.instances[1].category_token = text("nowhere");
    let store = Store::build(&tables);
    assert_eq!(
        store.label(&tables, 0),
        Err(Fault::Unresolved { reference: Reference::Instance, from: 0 })
    );
    assert_eq!(
        store.label(&tables, 1),
        Err(Fault::Unresolved { reference: Reference::Category, from: 1 })
    );
    assert_eq!(store.label(&tables, 3), Ok(Object { annotation: 3, instance: 0, category: 0 }));
}

#[test]
fn a_circle_of_samples_ends_the_run() {
    let mut tables = two_scenes();
    tables.samples[3].next = text("a1");
    assert_eq!(import(&tables).err(), Some(DataIntegrityError::Circular { scene: 0 }));
    let store = Store::build(&tables);
    assert!(store.scene(&tables, 0).is_none());
    assert_eq!(store.scene(&tables, 1).unwrap().len(), 1);
}

#[test]
fn a_sample_that_follows_itself_ends_the_run() {
    let mut tables = two_scenes();
    tables.samples[1].next = text("b1");
    assert_eq!(import(&tables).err(), Some(DataIntegrityError::Circular { scene: 1 }));
}

#[test]
fn a_scene_without_samples_has_no_frames() {
    let mut tables = two_scenes();
    tables.scenes[1].first_sample_token = text("nowhere");
    let lines = import(&tables).unwrap();
    assert_eq!(lines.len(), 2);
    assert_eq!(lines[1].frames.len(), 0);
}

#[test]
fn a_sample_without_data_has_an_empty_frame() {
    let mut tables = two_scenes();
    tables.datas.truncate(6);
    let lines = import(&tables).unwrap();
    assert_eq!(lines[1].frames.len(), 1);
    assert_eq!(lines[1].frames[0].records, vec![]);
}

#[test]
fn of_two_scenes_with_one_token_the_later_stands() {
    let mut tables = two_scenes();
    tables.scenes.push(scene("A", "b1", "b1", 1));
    let lines = import(&tables).unwrap();
    assert_eq!(lines.len(), 2);
    assert_eq!(lines[0].scene, 1);
    assert_eq!(lines[1].scene, 2);
    assert_eq!(samples_of(&lines[1].frames), vec![1]);
}

#[test]
fn no_tables_give_no_timelines() {
    let tables = Tables {
        scenes: vec![],
        samples: vec![],
        annotations: vec![],
        datas: vec![],
        instances: vec![],
        categories: vec![],
        egos: vec![],
        calibrations: vec![],
        sensors: vec![],
    };
    assert_eq!(import(&tables).unwrap().len(), 0);
}

#[test]
fn the_index_finds_the_later_of_two() {
    let samples = vec![
        sample("x", "A", "", ""),
        sample("y", "A", "", ""),
        sample("x", "A", "", ""),
    ];
    let index = Index::build(&samples);
    assert_eq!(index.len(), 3);
    assert_eq!(index.get("x"), Some(2));
    assert_eq!(index.get("y"), Some(1));
    assert_eq!(index.get("z"), None);
    assert_eq!(index.get(""), None);
}

#[test]
fn groups_keep_table_order() {
    let samples = vec![sample("x", "A", "", ""), sample("y", "A", "", "")];
    let index = Index::build(&samples);
    let annotations = vec![
        annotation("n0", "y", "i"),
        annotation("n1", "x", "i"),
        annotation("n2", "q", "i"),
        annotation("n3", "y", "i"),
    ];
    assert_eq!(group(&index, &annotations), vec![vec![1], vec![0, 3]]);
}

#[test]
fn the_walk_follows_the_links() {
    let tables = two_scenes();
    let index = Index::build(&tables.samples);
    assert_eq!(walk(&index, &tables.samples, "a1"), Some(vec![2, 0, 3]));
    assert_eq!(walk(&index, &tables.samples, "a2"), Some(vec![0, 3]));
    assert_eq!(walk(&index, &tables.samples, "b1"), Some(vec![1]));
    assert_eq!(walk(&index, &tables.samples, ""), Some(vec![]));
}

#[test]
fn a_walk_may_meet_every_sample() {
    let samples = vec![
        sample("s0", "A", "", "s1"),
        sample("s1", "A", "s0", "s2"),
        sample("s2", "A", "s1", ""),
    ];
    let index = Index::build(&samples);
    assert_eq!(walk(&index, &samples, "s0"), Some(vec![0, 1, 2]));
    let circle = vec![
        sample("s0", "A", "", "s1"),
        sample("s1", "A", "s0", "s2"),
        sample("s2", "A", "s1", "s0"),
    ];
    let index = Index::build(&circle);
    assert_eq!(walk(&index, &circle, "s0"), None);
}
