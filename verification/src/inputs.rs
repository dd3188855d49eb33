//! The options of a run, and what they come to: the queue of meshes, the
//! turntable, and the size of the viewport.

use crate::context::Context;
use crate::geometry::{
    defect_of, faces_of, resolved_color, GeometryError, Material, SimpleMesh, SourceModel, Triangle,
};
use crate::loader::{
    decode_stl, extension_of, file_extension, format_for_extension, format_of_extension,
    stl_decoding, ModelFormat,
};
use crate::turntable::{angle_from_bits, angle_of, half_turn_on, moved, PI};
use vstd::prelude::*;

verus! {

/// How the program is run.
#[derive(Clone, Copy, PartialEq, Eq, Debug)]
pub enum SubCommand {
    /// In the terminal, turning until a key ends it.
    Interactive,
    /// As lines of text of a fixed size: one still frame, or, when `webify`
    /// is not zero, that many frames of one revolution.
    Image { webify: u16, width: u16, height: Option<u16> },
}

/// The options of a run. The four numbers are single-precision bit patterns
/// of any value.
#[derive(Clone, PartialEq, Eq, Debug)]
pub struct Opts {
    /// The paths of the model files.
    pub models: Vec<String>,
    /// Whether to render without colour.
    pub color_less: bool,
    /// The yaw, in radians.
    pub x: u32,
    /// The pitch, in radians.
    pub y: u32,
    /// The roll, in radians.
    pub z: u32,
    /// The speed of rotation.
    pub speed: u32,
    pub subcmd: SubCommand,
}

/// What was read for one model path, before the library has seen it.
#[derive(Clone, PartialEq, Eq, Debug)]
pub enum ModelFile {
    /// The file could not be read or loaded; the text says why.
    Unreadable(String),
    /// The bytes of an STL file.
    StlBytes(Vec<u8>),
    /// The models and materials that a loader made of an OBJ file.
    ObjModels(Vec<SourceModel>, Vec<Material>),
}

/// Why a model path gave no meshes.
#[derive(Clone, Copy, PartialEq, Eq, Debug)]
pub enum LoadFailure {
    /// The path has no extension.
    NoExtension,
    /// The extension is neither `obj` nor `stl`.
    UnknownExtension,
    /// The OBJ file could not be loaded.
    ObjLoad,
    /// The STL file could not be read.
    StlLoad,
    /// The bytes are no STL data.
    StlParse,
    /// A model is not a triangle mesh.
    Geometry(GeometryError),
    /// Nothing was read for the path, or not what its format asks for.
    NotLoaded,
}

/// Why the options give no run.
#[derive(Clone, PartialEq, Eq, Debug)]
pub enum InputError {
    /// The model path with this index failed, for this reason; `cause` is
    /// what the loader said, if it said anything.
    Load { path: usize, failure: LoadFailure, cause: String },
    /// There is no mesh to render.
    NoMeshes,
}

/// The triangles of each mesh of a queue.
pub open spec fn mesh_views(meshes: Seq<SimpleMesh>) -> Seq<Seq<Triangle>> {
    Seq::new(meshes.len(), |i: int| meshes[i]@)
}

/// The meshes of the first `count` models, each with the colour of its
/// material, or the defect of the first model that has one.
pub open spec fn converted(
    models: Seq<SourceModel>,
    materials: Seq<Material>,
    count: nat,
) -> Result<Seq<Seq<Triangle>>, GeometryError>
    decreases count,
{
    if count == 0 {
        Ok(Seq::empty())
    } else {
        match converted(models, materials, (count - 1) as nat) {
            Err(e) => Err(e),
            Ok(done) => {
                let model = models[count - 1];
                match defect_of(model.positions@, model.indices@) {
                    Some(e) => Err(e),
                    None => Ok(
                        done.push(
                            faces_of(
                                model.positions@,
                                model.indices@,
                                resolved_color(model.material_id, materials),
                            ),
                        ),
                    ),
                }
            },
        }
    }
}

/// What the path with index `i` comes to: its meshes, or why it has none
/// and what the loader said.
pub open spec fn file_outcome(path: Seq<char>, files: Seq<ModelFile>, i: int) -> Result<
    Seq<Seq<Triangle>>,
    (LoadFailure, Seq<char>),
> {
    match extension_of(path) {
        None => Err((LoadFailure::NoExtension, Seq::empty())),
        Some(extension) => match format_of_extension(extension) {
            None => Err((LoadFailure::UnknownExtension, Seq::empty())),
            Some(ModelFormat::Obj) => if i >= files.len() {
                Err((LoadFailure::NotLoaded, Seq::empty()))
            } else {
                match files[i] {
                    ModelFile::ObjModels(models, materials) => match converted(
                        models@,
                        materials@,
                        models@.len(),
                    ) {
                        Ok(meshes) => Ok(meshes),
                        Err(e) => Err((LoadFailure::Geometry(e), Seq::empty())),
                    },
                    ModelFile::Unreadable(cause) => Err((LoadFailure::ObjLoad, cause@)),
                    ModelFile::StlBytes(_) => Err((LoadFailure::NotLoaded, Seq::empty())),
                }
            },
            Some(ModelFormat::Stl) => if i >= files.len() {
                Err((LoadFailure::NotLoaded, Seq::empty()))
            } else {
                match files[i] {
                    ModelFile::StlBytes(bytes) => match stl_decoding(bytes@) {
                        Err(message) => Err((LoadFailure::StlParse, message)),
                        Ok(mesh) => match defect_of(mesh.0, mesh.1) {
                            Some(e) => Err((LoadFailure::Geometry(e), Seq::empty())),
                            None => Ok(seq![faces_of(mesh.0, mesh.1, None)]),
                        },
                    },
                    ModelFile::Unreadable(cause) => Err((LoadFailure::StlLoad, cause@)),
                    ModelFile::ObjModels(_, _) => Err((LoadFailure::NotLoaded, Seq::empty())),
                }
            },
        },
    }
}

/// The meshes of the first `count` paths in order, or the index of the
/// first path that fails, with the reason and what the loader said.
pub open spec fn queue_of(paths: Seq<String>, files: Seq<ModelFile>, count: nat) -> Result<
    Seq<Seq<Triangle>>,
    (int, LoadFailure, Seq<char>),
>
    decreases count,
{
    if count == 0 {
        Ok(Seq::empty())
    } else {
        match queue_of(paths, files, (count - 1) as nat) {
            Err(e) => Err(e),
            Ok(done) => match file_outcome(paths[count - 1]@, files, count - 1) {
                Err(e) => Err((count - 1, e.0, e.1)),
                Ok(meshes) => Ok(done + meshes),
            },
        }
    }
}

/// The format of the model file at a path, by its extension.
pub open spec fn format_of_path(path: Seq<char>) -> Result<ModelFormat, LoadFailure> {
    match extension_of(path) {
        None => Err(LoadFailure::NoExtension),
        Some(extension) => match format_of_extension(extension) {
            None => Err(LoadFailure::UnknownExtension),
            Some(format) => Ok(format),
        },
    }
}

/// The format of the model file at a path: what a caller needs to know
/// before it reads the file.
pub fn model_format(path: &str) -> (r: Result<ModelFormat, LoadFailure>)
    ensures
        r == format_of_path(path@),
{
    match file_extension(path) {
        None => Err(LoadFailure::NoExtension),
        Some(extension) => match format_for_extension(extension) {
            None => Err(LoadFailure::UnknownExtension),
            Some(format) => Ok(format),
        },
    }
}

/// What is read next when `files` have been read for the first paths: the
/// index of the next path and the format of its file; nothing when all
/// paths have been read or one of them has failed.
pub open spec fn next_read(paths: Seq<String>, files: Seq<ModelFile>) -> Option<
    (usize, ModelFormat),
> {
    if files.len() >= paths.len() {
        None
    } else if queue_of(paths, files, files.len()) is Err {
        None
    } else {
        match format_of_path(paths[files.len() as int]@) {
            Ok(format) => Some((files.len() as usize, format)),
            Err(_) => None,
        }
    }
}

/// The meshes of one model path, appended to the queue.
fn load_file(queue: &mut Vec<SimpleMesh>, path: &str, files: &Vec<ModelFile>, i: usize) -> (r:
    Result<(), (LoadFailure, String)>)
    ensures
        match r {
            Ok(()) => file_outcome(path@, files@, i as int) matches Ok(meshes) && mesh_views(
                final(queue)@,
            ) == mesh_views(old(queue)@) + meshes,
            Err(e) => file_outcome(path@, files@, i as int) == Err::<
                Seq<Seq<Triangle>>,
                (LoadFailure, Seq<char>),
            >((e.0, e.1@)),
        },
{
    let extension: &str = match file_extension(path) {
        Some(extension) => extension,
        None => {
            return Err((LoadFailure::NoExtension, String::new()));
        },
    };
    let format: ModelFormat = match format_for_extension(extension) {
        Some(format) => format,
        None => {
            return Err((LoadFailure::UnknownExtension, String::new()));
        },
    };
    if i >= files.len() {
        return Err((LoadFailure::NotLoaded, String::new()));
    }
    match format {
        ModelFormat::Obj => match &files[i] {
            ModelFile::ObjModels(models, materials) => match Opts::to_meshes(models, materials) {
                Ok(mut meshes) => {
                    queue.append(&mut meshes);
                    Ok(())
                },
                Err(e) => Err((LoadFailure::Geometry(e), String::new())),
            },
            ModelFile::Unreadable(cause) => Err((LoadFailure::ObjLoad, cause.clone())),
            ModelFile::StlBytes(_) => Err((LoadFailure::NotLoaded, String::new())),
        },
        ModelFormat::Stl => match &files[i] {
            ModelFile::StlBytes(bytes) => match decode_stl(bytes.as_slice()) {
                Err(message) => Err((LoadFailure::StlParse, message)),
                Ok(model) => match model.check() {
                    Err(e) => Err((LoadFailure::Geometry(e), String::new())),
                    Ok(()) => {
                        let mesh: SimpleMesh = model.to_simple_mesh();
                        queue.push(mesh);
                        Ok(())
                    },
                },
            },
            ModelFile::Unreadable(cause) => Err((LoadFailure::StlLoad, cause.clone())),
            ModelFile::ObjModels(_, _) => Err((LoadFailure::NotLoaded, String::new())),
        },
    }
}

impl Opts {
    /// Converts the models of one file, each with the colour of its
    /// material: see [`converted`].
    pub fn to_meshes(models: &Vec<SourceModel>, materials: &Vec<Material>) -> (r: Result<
        Vec<SimpleMesh>,
        GeometryError,
    >)
        ensures
            match r {
                Ok(meshes) => converted(models@, materials@, models@.len()) == Ok::<
                    Seq<Seq<Triangle>>,
                    GeometryError,
                >(mesh_views(meshes@)),
                Err(e) => converted(models@, materials@, models@.len()) == Err::<
                    Seq<Seq<Triangle>>,
                    GeometryError,
                >(e),
            },
    {
        let mut meshes: Vec<SimpleMesh> = Vec::new();
        let mut k: usize = 0;
        assert(mesh_views(meshes@) =~= Seq::<Seq<Triangle>>::empty());
        while k < models.len()
            invariant
                k <= models@.len(),
                converted(models@, materials@, k as nat) == Ok::<Seq<Seq<Triangle>>, GeometryError>(
                    mesh_views(meshes@),
                ),
            decreases models@.len() - k,
        {
            let model: &SourceModel = &models[k];
            match model.check() {
                Err(e) => {
                    proof {
                        lemma_converted_fails(models@, materials@, (k + 1) as nat, models@.len());
                    }
                    return Err(e);
                },
                Ok(()) => {
                    let mesh: SimpleMesh = model.to_simple_mesh_with_materials(
                        materials.as_slice(),
                    );
                    proof {
                        assert(mesh_views(meshes@.push(mesh)) =~= mesh_views(meshes@).push(mesh@));
                    }
                    meshes.push(mesh);
                },
            }
            k += 1;
        }
        Ok(meshes)
    }

    /// The queue of meshes of the run: the meshes of all model paths in
    /// order, where `files[i]` is what was read for `models[i]`. The first
    /// path that fails gives the error, and no queue; so does a run without
    /// any mesh.
    pub fn match_meshes(&self, files: &Vec<ModelFile>) -> (r: Result<Vec<SimpleMesh>, InputError>)
        ensures
            match queue_of(self.models@, files@, self.models@.len()) {
                Err(e) => r matches Err(InputError::Load { path, failure, cause }) && path == e.0
                    && failure == e.1 && cause@ == e.2,
                Ok(queue) => if queue.len() == 0 {
                    r matches Err(InputError::NoMeshes)
                } else {
                    r matches Ok(meshes) && mesh_views(meshes@) == queue
                },
            },
    {
        let mut mesh_queue: Vec<SimpleMesh> = Vec::new();
        let mut i: usize = 0;
        assert(mesh_views(mesh_queue@) =~= Seq::<Seq<Triangle>>::empty());
        while i < self.models.len()
            invariant
                i <= self.models@.len(),
                queue_of(self.models@, files@, i as nat) == Ok::<
                    Seq<Seq<Triangle>>,
                    (int, LoadFailure, Seq<char>),
                >(mesh_views(mesh_queue@)),
            decreases self.models@.len() - i,
        {
            match load_file(&mut mesh_queue, self.models[i].as_str(), files, i) {
                Err(e) => {
                    proof {
                        lemma_queue_fails(self.models@, files@, (i + 1) as nat, self.models@.len());
                    }
                    return Err(InputError::Load { path: i, failure: e.0, cause: e.1 });
                },
                Ok(()) => {},
            }
            i += 1;
        }
        if mesh_queue.len() == 0 {
            Err(InputError::NoMeshes)
        } else {
            Ok(mesh_queue)
        }
    }

    /// What is read next: see [`next_read`]. A caller reads the file of the
    /// path that this names, adds what it read to `files`, and asks again,
    /// so that nothing is read after the first path that fails.
    pub fn next_to_read(&self, files: &Vec<ModelFile>) -> (r: Option<(usize, ModelFormat)>)
        ensures
            r == next_read(self.models@, files@),
    {
        let count: usize = files.len();
        if count >= self.models.len() {
            return None;
        }
        let mut scratch: Vec<SimpleMesh> = Vec::new();
        let mut i: usize = 0;
        assert(mesh_views(scratch@) =~= Seq::<Seq<Triangle>>::empty());
        while i < count
            invariant
                i <= count,
                count == files@.len(),
                count < self.models@.len(),
                queue_of(self.models@, files@, i as nat) == Ok::<
                    Seq<Seq<Triangle>>,
                    (int, LoadFailure, Seq<char>),
                >(mesh_views(scratch@)),
            decreases count - i,
        {
            match load_file(&mut scratch, self.models[i].as_str(), files, i) {
                Err(e) => {
                    proof {
                        lemma_queue_fails(self.models@, files@, (i + 1) as nat, count as nat);
                    }
                    return None;
                },
                Ok(()) => {},
            }
            i += 1;
        }
        match model_format(self.models[count].as_str()) {
            Ok(format) => Some((count, format)),
            Err(_) => None,
        }
    }

    /// The turntable of the run as yaw, pitch, roll and speed. The three
    /// angles are those of the options within one revolution, the pitch half
    /// a revolution further, since models face away from the viewer; an angle
    /// that is no finite number is none. The speed is that of the options
    /// as it is. There is a turntable for all options.
    pub fn match_turntable(&self) -> (r: Result<(Option<i64>, Option<i64>, Option<i64>, u32), InputError>)
        ensures
            r matches Ok(t) && t.0 == angle_of(self.x) && t.1 == (match angle_of(self.y) {
                Some(a) => Some(moved(a as int, false, PI as int) as i64),
                None => None,
            }) && t.2 == angle_of(self.z) && t.3 == self.speed,
    {
        let yaw: Option<i64> = angle_from_bits(self.x);
        let pitch: Option<i64> = half_turn_on(angle_from_bits(self.y));
        let roll: Option<i64> = angle_from_bits(self.z);
        Ok((yaw, pitch, roll, self.speed))
    }

    /// Brings the context to the size that the options ask for: for an
    /// image its width and height, the height being the width where none is
    /// given. An interactive run leaves the context as it is: its size is
    /// that of the terminal.
    pub fn match_dimensions(&self, context: &mut Context) -> (r: Result<(), InputError>)
        requires
            old(context).wf(),
        ensures
            r is Ok,
            final(context).wf(),
            final(context)@ == match self.subcmd {
                SubCommand::Image { webify, width, height } => old(context)@.updated(
                    width as nat,
                    match height {
                        Some(h) => h as nat,
                        None => width as nat,
                    },
                ),
                SubCommand::Interactive => old(context)@,
            },
    {
        match self.subcmd {
            SubCommand::Image { webify, width, height } => {
                let rows: u16 = match height {
                    Some(h) => h,
                    None => width,
                };
                let no_meshes: Vec<SimpleMesh> = Vec::new();
                context.update((width, rows), no_meshes.as_slice());
            },
            SubCommand::Interactive => {},
        }
        Ok(())
    }
}

/// Once a model has a defect, the conversion of more models fails the same way.
pub proof fn lemma_converted_fails(
    models: Seq<SourceModel>,
    materials: Seq<Material>,
    failed: nat,
    count: nat,
)
    requires
        failed <= count,
        converted(models, materials, failed) is Err,
    ensures
        converted(models, materials, count) == converted(models, materials, failed),
    decreases count,
{
    if failed < count {
        lemma_converted_fails(models, materials, failed, (count - 1) as nat);
    }
}

/// Once a path has failed, the queue of more paths fails the same way.
pub proof fn lemma_queue_fails(paths: Seq<String>, files: Seq<ModelFile>, failed: nat, count: nat)
    requires
        failed <= count,
        queue_of(paths, files, failed) is Err,
    ensures
        queue_of(paths, files, count) == queue_of(paths, files, failed),
    decreases count,
{
    if failed < count {
        lemma_queue_fails(paths, files, failed, (count - 1) as nat);
    }
}

} // verus!
