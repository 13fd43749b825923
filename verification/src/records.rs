//! The relational records of a dataset, reduced to the fields that linking
//! reads: tokens, names and sizes. Poses, boxes and timestamps stay with the
//! caller, who finds them again by a record's position in its table.
use vstd::prelude::*;

verus! {

/// A record that is found by its token.
pub trait Keyed {
    /// The record's token.
    spec fn key(&self) -> Seq<char>;

    fn token(&self) -> (t: &String)
        ensures
            t@ == self.key(),
    ;
}

/// A record that belongs to a sample.
pub trait Member {
    /// The token of the sample that the record belongs to.
    spec fn owner(&self) -> Seq<char>;

    fn sample_token(&self) -> (t: &String)
        ensures
            t@ == self.owner(),
    ;
}

/// The tokens of a table, in table order.
pub open spec fn keys<T: Keyed>(table: Seq<T>) -> Seq<Seq<char>> {
    Seq::new(table.len(), |i: int| table[i].key())
}

/// The sample tokens that the records of a table refer to, in table order.
pub open spec fn owners<T: Member>(table: Seq<T>) -> Seq<Seq<char>> {
    Seq::new(table.len(), |i: int| table[i].owner())
}

/// One recorded driving session.
#[derive(Debug)]
pub struct Scene {
    pub token: String,
    pub name: String,
    pub description: String,
    pub log_token: String,
    pub nbr_samples: i32,
    pub first_sample_token: String,
    pub last_sample_token: String,
}

/// One instant of a scene, linked to the instants before and after it.
#[derive(Debug)]
pub struct Sample {
    pub token: String,
    pub scene_token: String,
    pub next: String,
    pub prev: String,
}

/// What one sensor captured for a sample. The sizes are in whole pixels.
#[derive(Debug)]
pub struct Data {
    pub token: String,
    pub is_key_frame: bool,
    pub width: Option<u32>,
    pub height: Option<u32>,
    pub fileformat: String,
    pub filename: String,
    pub ego_pose_token: String,
    pub sample_token: String,
    pub calibrated_sensor_token: String,
    pub next: String,
    pub prev: String,
}

/// A labelled object of a sample.
#[derive(Debug)]
pub struct Annotation {
    pub token: String,
    pub sample_token: String,
    pub instance_token: String,
    pub attribute_tokens: Vec<String>,
    pub visibility_token: String,
    pub num_lidar_pts: i32,
    pub num_radar_pts: i32,
    pub next: String,
    pub prev: String,
}

/// One physical object, followed through a scene.
#[derive(Debug)]
pub struct Instance {
    pub token: String,
    pub category_token: String,
    pub nbr_annotations: i32,
    pub first_annotation_token: String,
    pub last_annotation_token: String,
}

/// A label.
#[derive(Debug)]
pub struct Category {
    pub token: String,
    pub name: String,
}

/// The vehicle's pose at one instant.
#[derive(Debug)]
pub struct Ego {
    pub token: String,
}

/// How a sensor is mounted, and whether it comes with a camera matrix.
#[derive(Debug)]
pub struct Calibration {
    pub token: String,
    pub sensor_token: String,
    pub has_intrinsic: bool,
}

/// A sensor and the channel it records on.
#[derive(Debug)]
pub struct Sensor {
    pub token: String,
    pub modality: String,
    pub channel: String,
}

impl Keyed for Scene {
    open spec fn key(&self) -> Seq<char> {
        self.token@
    }

    fn token(&self) -> (t: &String) {
        &self.token
    }
}

impl Keyed for Sample {
    open spec fn key(&self) -> Seq<char> {
        self.token@
    }

    fn token(&self) -> (t: &String) {
        &self.token
    }
}

impl Keyed for Instance {
    open spec fn key(&self) -> Seq<char> {
        self.token@
    }

    fn token(&self) -> (t: &String) {
        &self.token
    }
}

impl Keyed for Category {
    open spec fn key(&self) -> Seq<char> {
        self.token@
    }

    fn token(&self) -> (t: &String) {
        &self.token
    }
}

impl Keyed for Ego {
    open spec fn key(&self) -> Seq<char> {
        self.token@
    }

    fn token(&self) -> (t: &String) {
        &self.token
    }
}

impl Keyed for Calibration {
    open spec fn key(&self) -> Seq<char> {
        self.token@
    }

    fn token(&self) -> (t: &String) {
        &self.token
    }
}

impl Keyed for Sensor {
    open spec fn key(&self) -> Seq<char> {
        self.token@
    }

    fn token(&self) -> (t: &String) {
        &self.token
    }
}

impl Member for Data {
    open spec fn owner(&self) -> Seq<char> {
        self.sample_token@
    }

    fn sample_token(&self) -> (t: &String) {
        &self.sample_token
    }
}

impl Member for Annotation {
    open spec fn owner(&self) -> Seq<char> {
        self.sample_token@
    }

    fn sample_token(&self) -> (t: &String) {
        &self.sample_token
    }
}

/// The tables of a dataset, as they were read.
#[derive(Debug)]
pub struct Tables {
    pub scenes: Vec<Scene>,
    pub samples: Vec<Sample>,
    pub annotations: Vec<Annotation>,
    pub datas: Vec<Data>,
    pub instances: Vec<Instance>,
    pub categories: Vec<Category>,
    pub egos: Vec<Ego>,
    pub calibrations: Vec<Calibration>,
    pub sensors: Vec<Sensor>,
}

/// The collections that a dataset is made of.
#[derive(Clone, Copy, Debug, PartialEq, Eq)]
pub enum Collection {
    Scene,
    Sample,
    Annotation,
    Data,
    Instance,
    Category,
    Ego,
    Calibration,
    Sensor,
}

impl Collection {
    /// The name of the file that holds the collection, below the dataset's
    /// root.
    pub open spec fn file(self) -> Seq<char> {
        match self {
            Collection::Scene => "scene.json"@,
            Collection::Sample => "sample.json"@,
            Collection::Annotation => "sample_annotation.json"@,
            Collection::Data => "sample_data.json"@,
            Collection::Instance => "instance.json"@,
            Collection::Category => "category.json"@,
            Collection::Ego => "ego_pose.json"@,
            Collection::Calibration => "calibrated_sensor.json"@,
            Collection::Sensor => "sensor.json"@,
        }
    }

    /// Writes the name of the collection's file.
    pub fn file_name(self) -> (out: String)
        ensures
            out@ == self.file(),
    {
        match self {
            Collection::Scene => "scene.json".to_owned(),
            Collection::Sample => "sample.json".to_owned(),
            Collection::Annotation => "sample_annotation.json".to_owned(),
            Collection::Data => "sample_data.json".to_owned(),
            Collection::Instance => "instance.json".to_owned(),
            Collection::Category => "category.json".to_owned(),
            Collection::Ego => "ego_pose.json".to_owned(),
            Collection::Calibration => "calibrated_sensor.json".to_owned(),
            Collection::Sensor => "sensor.json".to_owned(),
        }
    }
}

} // verus!
