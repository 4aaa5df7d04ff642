use vox_rs::scene::default_materials;
use vox_rs::{sample_anim_transform, KeyframeTransform, TransformSample};
use vox_rs::{
    compute_looped_frame_index, AnimModel, AnimTransform, Camera, CameraMode, CardinalTransform, Group,
    Instance, KeyframeModel, Layer, Model, Palette, ReadOptions, Rgba, Scene, VoxError,
};

fn full_options() -> ReadOptions {
    ReadOptions {
        preserve_groups: true,
        preserve_keyframes: true,
        keep_empty_models_instances: true,
        keep_duplicate_models: true,
    }
}

fn solid_model(size: u32, color: u8) -> Model {
    Model {
        size_x: size,
        size_y: size,
        size_z: size,
        voxels: vec![color; (size * size * size) as usize],
    }
}

fn instance_of(model_index: usize, tx: i32) -> Instance {
    Instance {
        name: None,
        transform: CardinalTransform {
            tx,
            ..CardinalTransform::identity()
        },
        model_index,
        layer_index: None,
        group_index: None,
        hidden: false,
        transform_anim: AnimTransform::default(),
        model_anim: AnimModel::default(),
    }
}

fn group(name: Option<&str>, parent: Option<usize>) -> Group {
    Group {
        name: name.map(|n| n.to_string()),
        transform: CardinalTransform::identity(),
        parent_group_index: parent,
        layer_index: None,
        hidden: false,
        transform_anim: AnimTransform::default(),
    }
}

fn camera(id: u32) -> Camera {
    Camera {
        camera_id: id,
        mode: CameraMode::Perspective,
        focus: Some(b"0 0 0".to_vec()),
        angle: Some(b"0 0 0".to_vec()),
        radius: Some(b"0".to_vec()),
        frustum: Some(b"0.4".to_vec()),
        fov: 45,
    }
}


/// The scene that the meta-chunk fixture holds: one 40 cubed model, ten
/// cameras, sixteen layers, one group and thirty-two color names.
fn meta_scene() -> Scene {
    let mut layers = Vec::new();
    for index in 0..16 {
        layers.push(Layer {
            name: None,
            color: if index == 0 {
                Rgba {
                    r: 255,
                    g: 204,
                    b: 153,
                    a: 255,
                }
            } else {
                Rgba {
                    r: 255,
                    g: 255,
                    b: 255,
                    a: 255,
                }
            },
            hidden: false,
        });
    }
    let mut color_names = vec!["NOTE".to_string()];
    for index in 1..32 {
        color_names.push(format!("color {index}"));
    }
    Scene {
        file_version: 200,
        models: vec![solid_model(40, 1)],
        instances: vec![instance_of(0, 0)],
        layers,
        groups: vec![group(None, None)],
        color_names,
        cameras: (0..10).map(camera).collect(),
        anim_range_start: 7,
        anim_range_end: 36,
        ..Scene::default()
    }
}

fn meta_bytes() -> Vec<u8> {
    meta_scene().write().expect("scene must serialize")
}

#[test]
fn looped_frame_index() {
    assert_eq!(compute_looped_frame_index(0, 0, 0), 0);
    assert_eq!(compute_looped_frame_index(0, 0, 1), 0);
    assert_eq!(compute_looped_frame_index(0, 0, 15), 0);

    assert_eq!(compute_looped_frame_index(1, 1, 0), 1);
    assert_eq!(compute_looped_frame_index(1, 1, 1), 1);
    assert_eq!(compute_looped_frame_index(1, 1, 15), 1);

    assert_eq!(compute_looped_frame_index(0, 9, 0), 0);
    assert_eq!(compute_looped_frame_index(0, 9, 4), 4);
    assert_eq!(compute_looped_frame_index(0, 9, 9), 9);
    assert_eq!(compute_looped_frame_index(0, 9, 10), 0);
    assert_eq!(compute_looped_frame_index(0, 9, 11), 1);
    assert_eq!(compute_looped_frame_index(0, 9, 14), 4);
    assert_eq!(compute_looped_frame_index(0, 9, 19), 9);
    assert_eq!(compute_looped_frame_index(0, 9, 21), 1);

    assert_eq!(compute_looped_frame_index(4, 13, 0), 10);
    assert_eq!(compute_looped_frame_index(4, 13, 3), 13);
    assert_eq!(compute_looped_frame_index(4, 13, 4), 4);
    assert_eq!(compute_looped_frame_index(4, 13, 5), 5);
    assert_eq!(compute_looped_frame_index(4, 13, 12), 12);
    assert_eq!(compute_looped_frame_index(4, 13, 13), 13);
    assert_eq!(compute_looped_frame_index(4, 13, 14), 4);
    assert_eq!(compute_looped_frame_index(4, 13, 21), 11);
}

#[test]
fn animation_sampling() {
    let mut instance = instance_of(2, 4);
    instance.model_anim = AnimModel {
        keyframes: vec![
            KeyframeModel {
                frame_index: 4,
                model_index: 2,
            },
            KeyframeModel {
                frame_index: 13,
                model_index: 9,
            },
        ],
        looped: true,
    };
    assert_eq!(instance.sample_model_index(8), 2);
    assert_eq!(instance.sample_model_index(14), 2);
    assert_eq!(instance.sample_model_index(13), 9);
}

#[test]
fn reads_meta_chunk_fixture() {
    let scene = Scene::read_bytes_with_options(&meta_bytes(), full_options()).expect("fixture must parse");

    assert_eq!(scene.anim_range_start, 7);
    assert_eq!(scene.anim_range_end, 36);
    assert_eq!(scene.file_version, 200);
    assert_eq!(scene.cameras.len(), 10);
    assert_eq!(scene.models.len(), 1);
    assert_eq!(scene.instances.len(), 1);
    assert_eq!(scene.layers.len(), 16);
    assert_eq!(scene.groups.len(), 1);
    assert_eq!(scene.color_names.len(), 32);
    assert_eq!(scene.color_names[0], "NOTE");

    let model = &scene.models[0];
    assert_eq!(model.size_x, 40);
    assert_eq!(model.size_y, 40);
    assert_eq!(model.size_z, 40);
    assert_eq!(model.solid_voxel_count(), 64000);

    let layer = &scene.layers[0];
    assert_eq!(layer.name, None);
    assert!(!layer.hidden);
    assert_eq!(
        layer.color,
        Rgba {
            r: 255,
            g: 204,
            b: 153,
            a: 255
        }
    );

    let group = &scene.groups[0];
    assert_eq!(group.name, None);
    assert_eq!(group.parent_group_index, None);
    assert_eq!(group.layer_index, None);
    assert!(!group.hidden);
}

#[test]
fn reads_group_fixture() {
    let source = Scene {
        models: vec![solid_model(2, 3)],
        instances: vec![Instance {
            group_index: Some(3),
            ..instance_of(0, 0)
        }],
        groups: vec![
            group(None, None),
            group(Some("scene"), Some(0)),
            group(Some("props"), Some(0)),
            group(Some("characters"), Some(0)),
            group(Some("text"), Some(0)),
        ],
        ..Scene::default()
    };
    let bytes = source.write().expect("scene must serialize");
    let scene = Scene::read_bytes_with_options(&bytes, full_options()).expect("fixture must parse");
    assert_eq!(scene.groups.len(), 5);
    assert_eq!(scene.file_version, 150);
    assert_eq!(scene.groups[3].name.as_deref(), Some("characters"));
    assert_eq!(scene.groups[4].name.as_deref(), Some("text"));
}

#[test]
fn round_trips_meta_fixture() {
    let original = Scene::read_bytes_with_options(&meta_bytes(), full_options()).expect("fixture must parse");
    let expected = Scene::read_bytes_with_options(&meta_bytes(), full_options()).expect("fixture must parse");
    let bytes = original.write().expect("scene must serialize");
    let reparsed = Scene::read_bytes_with_options(&bytes, full_options()).expect("round trip must parse");
    assert_eq!(reparsed.file_version, expected.file_version);
    assert_eq!(reparsed.anim_range_start, expected.anim_range_start);
    assert_eq!(reparsed.anim_range_end, expected.anim_range_end);
    assert_eq!(reparsed.models, expected.models);
    assert_eq!(reparsed.layers, expected.layers);
    assert_eq!(reparsed.color_names, expected.color_names);
    assert_eq!(reparsed.palette, expected.palette);
    assert_eq!(reparsed.materials, expected.materials);
    assert_eq!(reparsed.cameras, expected.cameras);
    assert_eq!(reparsed.sun, expected.sun);
    assert_eq!(reparsed.instances, expected.instances);
    assert_eq!(reparsed.groups, expected.groups);
    assert_eq!(reparsed, expected);
}

fn merge_inputs() -> (Scene, Scene) {
    let left = Scene {
        models: vec![Model {
            size_x: 1,
            size_y: 1,
            size_z: 1,
            voxels: vec![1],
        }],
        instances: vec![instance_of(0, 0)],
        ..Scene::default()
    };
    let right = Scene {
        models: vec![Model {
            size_x: 1,
            size_y: 1,
            size_z: 1,
            voxels: vec![2],
        }],
        instances: vec![instance_of(0, 1)],
        ..Scene::default()
    };
    (left, right)
}

#[test]
fn merge_supports_write_and_readback() {
    let (left, right) = merge_inputs();
    let left_models = left.models.len();
    let right_models = right.models.len();
    let left_instances = left.instances.len();
    let right_instances = right.instances.len();
    let merged = Scene::merge(vec![left, right], &[]).expect("merge must succeed");

    assert_eq!(merged.models.len(), left_models + right_models);
    assert_eq!(merged.instances.len(), left_instances + right_instances);
    assert_eq!(merged.layers.len(), 1);
    assert_eq!(merged.layers[0].name.as_deref(), Some("merged"));
    assert!(!merged.groups.is_empty());
    assert_eq!(merged.groups[0].parent_group_index, None);

    let merged_instances = merged.instances.len();
    let merged_models = merged.models.len();
    let bytes = merged.write().expect("merged scene must serialize");
    let reparsed =
        Scene::read_bytes_with_options(&bytes, full_options()).expect("merged round trip must parse");
    assert_eq!(reparsed.layers[0].name.as_deref(), Some("merged"));
    assert_eq!(reparsed.instances.len(), merged_instances);
    assert_eq!(reparsed.models.len(), merged_models);
}

#[test]
fn merge_places_scenes_side_by_side() {
    let (left, right) = merge_inputs();
    let red = Rgba {
        r: 200,
        g: 10,
        b: 10,
        a: 255,
    };
    let merged = Scene::merge(vec![left, right], &[red]).expect("merge must succeed");
    assert_eq!(merged.instances.len(), 2);
    assert_eq!(merged.file_version, 0);
    assert_eq!(merged.palette.colors[1], red);
    let default_palette = Palette::default();
    assert_eq!(merged.palette.colors[2], default_palette.colors[1]);
    assert_eq!(merged.palette.colors[3], default_palette.colors[2]);
    assert_eq!(
        merged.palette.colors[4],
        Rgba {
            r: 255,
            g: 0,
            b: 255,
            a: 255
        }
    );
    assert_eq!(merged.models[0].voxels, vec![2]);
    assert_eq!(merged.models[1].voxels, vec![3]);
    assert_eq!(merged.instances[0].transform.tx, 0);
    assert_eq!(merged.instances[1].transform.tx, 4);
    assert_eq!(merged.instances[1].model_index, 1);
    assert_eq!(merged.instances[1].group_index, Some(0));
    assert_eq!(merged.instances[1].layer_index, Some(0));
    assert_eq!(merged.groups.len(), 1);
}

#[test]
fn merge_rejects_too_many_required_colors() {
    let colors = vec![
        Rgba {
            r: 1,
            g: 2,
            b: 3,
            a: 4
        };
        256
    ];
    let result = Scene::merge(Vec::new(), &colors);
    assert_eq!(result.err(), Some(VoxError::TooManyRequiredColors(256)));
}

#[test]
fn merge_rejects_grouped_instances_without_groups() {
    let scene = Scene {
        instances: vec![Instance {
            group_index: Some(1),
            ..instance_of(0, 0)
        }],
        ..Scene::default()
    };
    assert!(matches!(Scene::merge(vec![scene], &[]), Err(VoxError::InvalidData(_))));
}

#[test]
fn read_rejects_short_and_foreign_input() {
    assert_eq!(Scene::read_bytes(b"VOX ").err(), Some(VoxError::UnexpectedEof));
    assert_eq!(Scene::read_bytes(b"ABCD\x96\0\0\0").err(), Some(VoxError::InvalidHeader));
    assert_eq!(
        Scene::read_bytes(b"VOX \x64\0\0\0").err(),
        Some(VoxError::UnsupportedVersion(100))
    );
}

#[test]
fn write_starts_with_header() {
    let bytes = Scene::default().write().expect("empty scene must serialize");
    assert_eq!(&bytes[0..4], b"VOX ");
    assert_eq!(u32::from_le_bytes([bytes[4], bytes[5], bytes[6], bytes[7]]), 150);
    assert_eq!(&bytes[8..12], b"MAIN");
}

#[test]
fn palette_and_voxels_round_trip() {
    let mut palette = Palette::default();
    palette.colors[5] = Rgba {
        r: 1,
        g: 2,
        b: 3,
        a: 4,
    };
    let model = Model {
        size_x: 2,
        size_y: 3,
        size_z: 2,
        voxels: vec![0, 5, 0, 7, 9, 0, 1, 0, 0, 3, 0, 5],
    };
    let source = Scene {
        models: vec![model.clone()],
        instances: vec![Instance {
            transform: CardinalTransform {
                rotation: 0b0010_0001,
                tx: -7,
                ty: 12,
                tz: 100000,
            },
            ..instance_of(0, 0)
        }],
        palette: palette.clone(),
        ..Scene::default()
    };
    let bytes = source.write().expect("scene must serialize");
    let back = Scene::read_bytes_with_options(&bytes, full_options()).expect("scene must parse");
    assert_eq!(back.models[0], model);
    assert_eq!(back.palette.colors[5], palette.colors[5]);
    assert_eq!(back.palette.colors[255], palette.colors[255]);
    assert_eq!(
        back.instances[0].transform,
        CardinalTransform {
            rotation: 0b0010_0001,
            tx: -7,
            ty: 12,
            tz: 100000,
        }
    );
}

#[test]
fn duplicate_models_are_merged_on_read() {
    let source = Scene {
        models: vec![solid_model(2, 4), solid_model(2, 4)],
        instances: vec![instance_of(0, 0), instance_of(1, 8)],
        ..Scene::default()
    };
    let bytes = source.write().expect("scene must serialize");
    let options = ReadOptions {
        preserve_groups: true,
        preserve_keyframes: true,
        keep_empty_models_instances: true,
        keep_duplicate_models: false,
    };
    let back = Scene::read_bytes_with_options(&bytes, options).expect("scene must parse");
    assert_eq!(back.models.len(), 1);
    assert_eq!(back.instances.len(), 2);
    assert_eq!(back.instances[0].model_index, 0);
    assert_eq!(back.instances[1].model_index, 0);
}

#[test]
fn validation_reports_missing_model() {
    let scene = Scene {
        instances: vec![instance_of(3, 0)],
        ..Scene::default()
    };
    assert!(matches!(
        vox_rs::validate_scene_references(&scene),
        Err(VoxError::IndexOutOfBounds { .. })
    ));
}

#[test]
fn model_counts() {
    let model = Model {
        size_x: 2,
        size_y: 2,
        size_z: 2,
        voxels: vec![0, 1, 0, 2, 0, 0, 3, 0],
    };
    assert_eq!(model.voxel_count(), Ok(8));
    assert_eq!(model.solid_voxel_count(), 3);
    let huge = Model {
        size_x: u32::MAX,
        size_y: u32::MAX,
        size_z: u32::MAX,
        voxels: Vec::new(),
    };
    assert!(matches!(huge.voxel_count(), Err(VoxError::InvalidData(_))));
    assert_eq!(default_materials().len(), 256);
}

#[test]
fn transforms_compose() {
    let quarter = CardinalTransform {
        rotation: 0b0010_0001,
        tx: 1,
        ty: 2,
        tz: 3,
    };
    let identity = CardinalTransform::identity();
    assert_eq!(quarter.multiply(identity), quarter);
    assert_eq!(identity.multiply(quarter), quarter);
    let moved = CardinalTransform {
        tx: 10,
        ..identity
    };
    assert_eq!(moved.multiply(moved).tx, 20);
}

fn chunk(id: &[u8; 4], content: &[u8], children: &[u8]) -> Vec<u8> {
    let mut out = id.to_vec();
    out.extend_from_slice(&(content.len() as u32).to_le_bytes());
    out.extend_from_slice(&(children.len() as u32).to_le_bytes());
    out.extend_from_slice(content);
    out.extend_from_slice(children);
    out
}

fn vox_file(children: &[u8]) -> Vec<u8> {
    let mut out = b"VOX ".to_vec();
    out.extend_from_slice(&150u32.to_le_bytes());
    out.extend(chunk(b"MAIN", &[], children));
    out
}

#[test]
fn voxels_without_size_are_refused() {
    let bytes = vox_file(&chunk(b"XYZI", &0u32.to_le_bytes(), &[]));
    assert_eq!(
        Scene::read_bytes(&bytes).err(),
        Some(VoxError::InvalidChunk("XYZI"))
    );
}

#[test]
fn missing_child_node_is_refused() {
    let mut ntrn = Vec::new();
    ntrn.extend_from_slice(&0u32.to_le_bytes());
    ntrn.extend_from_slice(&0u32.to_le_bytes());
    ntrn.extend_from_slice(&5u32.to_le_bytes());
    ntrn.extend_from_slice(&u32::MAX.to_le_bytes());
    ntrn.extend_from_slice(&u32::MAX.to_le_bytes());
    ntrn.extend_from_slice(&1u32.to_le_bytes());
    ntrn.extend_from_slice(&0u32.to_le_bytes());
    let bytes = vox_file(&chunk(b"nTRN", &ntrn, &[]));
    assert!(matches!(
        Scene::read_bytes(&bytes),
        Err(VoxError::InvalidNodeGraph(_))
    ));
}

#[test]
fn color_names_are_read_lossily() {
    let mut note = Vec::new();
    note.extend_from_slice(&1u32.to_le_bytes());
    note.extend_from_slice(&2u32.to_le_bytes());
    note.extend_from_slice(&[0xff, b'a']);
    let bytes = vox_file(&chunk(b"NOTE", &note, &[]));
    let scene = Scene::read_bytes(&bytes).expect("scene must parse");
    assert_eq!(scene.color_names, vec!["\u{fffd}a".to_string()]);
}

#[test]
fn meta_chunk_sets_animation_range() {
    let mut meta = Vec::new();
    meta.extend_from_slice(&1u32.to_le_bytes());
    meta.extend_from_slice(&11u32.to_le_bytes());
    meta.extend_from_slice(b"_anim_range");
    meta.extend_from_slice(&4u32.to_le_bytes());
    meta.extend_from_slice(b"3 12");
    let bytes = vox_file(&chunk(b"META", &meta, &[]));
    let scene = Scene::read_bytes(&bytes).expect("scene must parse");
    assert_eq!(scene.anim_range_start, 3);
    assert_eq!(scene.anim_range_end, 12);
}

#[test]
fn transform_keyframes_are_picked_for_sampling() {
    let a = CardinalTransform {
        tx: 4,
        ty: -4,
        tz: 8,
        ..CardinalTransform::identity()
    };
    let b = CardinalTransform {
        rotation: 0b0010_0001,
        tx: 13,
        ty: 7,
        tz: -9,
    };
    let anim = AnimTransform {
        keyframes: vec![
            KeyframeTransform {
                frame_index: 4,
                transform: a,
            },
            KeyframeTransform {
                frame_index: 13,
                transform: b,
            },
        ],
        looped: true,
    };
    assert_eq!(
        sample_anim_transform(&anim, 8),
        TransformSample::Between { index: 0, frame: 8 }
    );
    assert_eq!(sample_anim_transform(&anim, 14), TransformSample::Keyframe(0));
    assert_eq!(sample_anim_transform(&anim, 13), TransformSample::Keyframe(1));
    assert_eq!(sample_anim_transform(&anim, 2), TransformSample::Between { index: 0, frame: 12 });
}

#[test]
fn transform_keyframes_round_trip() {
    let frames = vec![
        KeyframeTransform {
            frame_index: 0,
            transform: CardinalTransform {
                tx: 1,
                ..CardinalTransform::identity()
            },
        },
        KeyframeTransform {
            frame_index: 7,
            transform: CardinalTransform {
                rotation: 0b0010_0001,
                tx: -3,
                ty: 5,
                tz: 9,
            },
        },
    ];
    let mut instance = instance_of(0, 1);
    instance.transform_anim = AnimTransform {
        keyframes: frames.clone(),
        looped: true,
    };
    let source = Scene {
        models: vec![solid_model(1, 2)],
        instances: vec![instance],
        ..Scene::default()
    };
    let bytes = source.write().expect("scene must serialize");
    let back = Scene::read_bytes_with_options(&bytes, full_options()).expect("scene must parse");
    assert_eq!(back.instances[0].transform_anim.keyframes, frames);
    assert!(back.instances[0].transform_anim.looped);
    assert_eq!(back.instances[0].transform, frames[0].transform);
}

#[test]
fn documented_examples() {
    let palette = Palette::raw_default();
    assert_eq!(palette.colors.len(), 256);
    assert_eq!(
        palette.colors[0],
        Rgba {
            r: 255,
            g: 255,
            b: 255,
            a: 255
        }
    );
    let scene_palette = Palette::default_scene_palette();
    assert_eq!(scene_palette.colors[0].a, 0);
    assert_eq!(scene_palette.colors[1], palette.colors[0]);
    assert_eq!(scene_palette.colors[0].r, palette.colors[255].r);

    let mut material = vox_rs::Material::default();
    assert!(!material.has_content());
    material.alpha = Some(vox_rs::ScalarText::Decimal(b"0.5".to_vec()));
    assert!(material.has_content());

    let model = Model {
        size_x: 2,
        size_y: 2,
        size_z: 1,
        voxels: vec![0; 4],
    };
    assert_eq!(model.voxel_count().unwrap(), 4);
    let model = Model {
        size_x: 2,
        size_y: 2,
        size_z: 1,
        voxels: vec![0, 1, 0, 2],
    };
    assert_eq!(model.solid_voxel_count(), 2);
    assert!(AnimModel::default().is_empty());
    assert!(AnimTransform::default().is_empty());
}

#[test]
fn malformed_model_stops_writing_after_the_models_before_it() {
    let bad = Model {
        size_x: 2,
        size_y: 2,
        size_z: 2,
        voxels: vec![1; 3],
    };
    let scene = Scene {
        models: vec![solid_model(1, 1), bad, solid_model(1, 2)],
        instances: vec![instance_of(0, 0), instance_of(1, 4), instance_of(2, 8)],
        ..Scene::default()
    };
    let (result, written) = vox_rs::write_scene(scene);
    assert!(matches!(result, Err(VoxError::InvalidData(_))));
    assert_eq!(written, 1);
}

#[test]
fn written_files_carry_the_scene_version_and_total_size() {
    let mut scene = meta_scene();
    scene.file_version = 200;
    let bytes = scene.write().expect("scene must serialize");
    assert_eq!(&bytes[0..4], b"VOX ");
    assert_eq!(u32::from_le_bytes([bytes[4], bytes[5], bytes[6], bytes[7]]), 200);
    assert_eq!(&bytes[8..12], b"MAIN");
    assert_eq!(u32::from_le_bytes([bytes[12], bytes[13], bytes[14], bytes[15]]), 0);
    let children = u32::from_le_bytes([bytes[16], bytes[17], bytes[18], bytes[19]]) as usize;
    assert_eq!(children, bytes.len() - 20);
}

#[test]
fn layer_and_note_chunks_are_read_in_full() {
    let mut layr = 2i32.to_le_bytes().to_vec();
    layr.extend_from_slice(&3u32.to_le_bytes());
    for (key, value) in [("_name", "back"), ("_hidden", "1"), ("_color", "10 20 300")] {
        layr.extend_from_slice(&(key.len() as u32).to_le_bytes());
        layr.extend_from_slice(key.as_bytes());
        layr.extend_from_slice(&(value.len() as u32).to_le_bytes());
        layr.extend_from_slice(value.as_bytes());
    }
    layr.extend_from_slice(&(-1i32).to_le_bytes());
    let mut note = 2u32.to_le_bytes().to_vec();
    for name in ["sky", "grass"] {
        note.extend_from_slice(&(name.len() as u32).to_le_bytes());
        note.extend_from_slice(name.as_bytes());
    }
    let mut children = chunk(b"LAYR", &layr, &[]);
    children.extend(chunk(b"NOTE", &note, &[]));
    let scene = Scene::read_bytes(&vox_file(&children)).expect("scene must parse");
    assert_eq!(scene.layers.len(), 3);
    assert_eq!(scene.layers[0], Layer { name: None, color: Rgba { r: 255, g: 255, b: 255, a: 255 }, hidden: false });
    assert_eq!(scene.layers[1], scene.layers[0]);
    assert_eq!(
        scene.layers[2],
        Layer {
            name: Some("back".to_string()),
            color: Rgba { r: 10, g: 20, b: 44, a: 255 },
            hidden: true,
        }
    );
    assert_eq!(scene.color_names, vec!["sky".to_string(), "grass".to_string()]);
    assert!(scene.models.is_empty());
    assert!(scene.instances.is_empty());
    assert!(scene.groups.is_empty());
}

#[test]
fn bad_layer_color_is_refused() {
    let mut layr = 0i32.to_le_bytes().to_vec();
    layr.extend_from_slice(&1u32.to_le_bytes());
    for (key, value) in [("_color", "red")] {
        layr.extend_from_slice(&(key.len() as u32).to_le_bytes());
        layr.extend_from_slice(key.as_bytes());
        layr.extend_from_slice(&(value.len() as u32).to_le_bytes());
        layr.extend_from_slice(value.as_bytes());
    }
    layr.extend_from_slice(&0i32.to_le_bytes());
    let result = Scene::read_bytes(&vox_file(&chunk(b"LAYR", &layr, &[])));
    assert!(matches!(result, Err(VoxError::InvalidData(_))));
}

#[test]
fn keyframes_are_dropped_unless_kept() {
    let mut scene = meta_scene();
    scene.instances[0].transform_anim = AnimTransform {
        keyframes: vec![
            KeyframeTransform { frame_index: 0, transform: CardinalTransform::identity() },
            KeyframeTransform {
                frame_index: 5,
                transform: CardinalTransform { tx: 3, ..CardinalTransform::identity() },
            },
        ],
        looped: true,
    };
    let bytes = scene.write().expect("scene must serialize");
    let options = ReadOptions { preserve_groups: true, ..ReadOptions::default() };
    let read = Scene::read_bytes_with_options(&bytes, options).expect("scene must parse");
    assert!(read.instances.iter().all(|i| i.transform_anim.keyframes.is_empty() && !i.transform_anim.looped));
    assert!(read.groups.iter().all(|g| g.transform_anim.keyframes.is_empty()));
    let kept = Scene::read_bytes_with_options(&bytes, full_options()).expect("scene must parse");
    assert_eq!(kept.instances[0].transform_anim.keyframes.len(), 2);
    assert!(kept.instances[0].transform_anim.looped);
}

#[test]
fn chunkless_file_reads_as_an_empty_scene() {
    let mut bytes = b"VOX ".to_vec();
    bytes.extend_from_slice(&200u32.to_le_bytes());
    for options in [ReadOptions::default(), full_options()] {
        let scene = Scene::read_bytes_with_options(&bytes, options).expect("scene must parse");
        assert_eq!(scene.file_version, 200);
        assert!(scene.models.is_empty());
        assert!(scene.instances.is_empty());
        assert_eq!(
            scene.layers,
            vec![Layer { name: None, color: Rgba { r: 0, g: 0, b: 0, a: 0 }, hidden: false }]
        );
        assert!(scene.groups.is_empty());
        assert!(scene.cameras.is_empty());
        assert!(scene.color_names.is_empty());
        assert_eq!(scene.sun, None);
        assert_eq!((scene.anim_range_start, scene.anim_range_end), (0, 30));
        assert_eq!(scene.palette, Palette::default());
    }
}

fn dict_payload(prefix: &[u8], pairs: &[(&str, &str)]) -> Vec<u8> {
    let mut out = prefix.to_vec();
    out.extend_from_slice(&(pairs.len() as u32).to_le_bytes());
    for (key, value) in pairs {
        out.extend_from_slice(&(key.len() as u32).to_le_bytes());
        out.extend_from_slice(key.as_bytes());
        out.extend_from_slice(&(value.len() as u32).to_le_bytes());
        out.extend_from_slice(value.as_bytes());
    }
    out
}

#[test]
fn float_texts_are_checked_on_read() {
    let id = 5u32.to_le_bytes();
    for good in ["0.5", "1e-3", "-inf", ".5", "7.", "+NaN", "2E+4", "Infinity"] {
        let matl = dict_payload(&id, &[("_rough", good)]);
        let scene = Scene::read_bytes(&vox_file(&chunk(b"MATL", &matl, &[]))).expect("material must parse");
        assert_eq!(
            scene.materials[5].rough,
            Some(vox_rs::ScalarText::Decimal(good.as_bytes().to_vec()))
        );
    }
    for bad in ["abc", "1.2.3", "", ".", "1e", "e5", "- 1", "0x10", "infinit"] {
        let matl = dict_payload(&id, &[("_rough", bad)]);
        let result = Scene::read_bytes(&vox_file(&chunk(b"MATL", &matl, &[])));
        assert!(matches!(result, Err(VoxError::InvalidData(_))), "{bad:?} must be refused");
    }
    let camera = dict_payload(&0u32.to_le_bytes(), &[("_focus", "0 0 x")]);
    let result = Scene::read_bytes(&vox_file(&chunk(b"rCAM", &camera, &[])));
    assert!(matches!(result, Err(VoxError::InvalidData(_))));
    let camera = dict_payload(&0u32.to_le_bytes(), &[("_focus", " 1  2.5 -3 "), ("_radius", "4")]);
    let scene = Scene::read_bytes(&vox_file(&chunk(b"rCAM", &camera, &[]))).expect("camera must parse");
    assert_eq!(scene.cameras.len(), 1);
    let sun = dict_payload(&[], &[("_type", "_inf"), ("_i", "bright")]);
    let result = Scene::read_bytes(&vox_file(&chunk(b"rOBJ", &sun, &[])));
    assert!(matches!(result, Err(VoxError::InvalidData(_))));
    let other = dict_payload(&[], &[("_type", "_bg"), ("_i", "bright")]);
    let scene = Scene::read_bytes(&vox_file(&chunk(b"rOBJ", &other, &[]))).expect("render settings must parse");
    assert_eq!(scene.sun, None);
}

#[test]
fn merging_duplicates_keeps_what_instances_show() {
    let source = Scene {
        models: vec![solid_model(2, 4), solid_model(1, 3), solid_model(2, 4), solid_model(1, 3)],
        instances: vec![instance_of(0, 0), instance_of(1, 8), instance_of(2, 16), instance_of(3, 24)],
        ..Scene::default()
    };
    let bytes = source.write().expect("scene must serialize");
    let kept = Scene::read_bytes_with_options(
        &bytes,
        ReadOptions { preserve_groups: true, keep_duplicate_models: true, ..ReadOptions::default() },
    )
    .expect("scene must parse");
    let merged = Scene::read_bytes_with_options(
        &bytes,
        ReadOptions { preserve_groups: true, ..ReadOptions::default() },
    )
    .expect("scene must parse");
    assert_eq!(kept.models.len(), 4);
    assert_eq!(merged.models.len(), 2);
    assert_ne!(merged.models[0], merged.models[1]);
    assert_eq!(merged.instances.len(), kept.instances.len());
    for (a, b) in merged.instances.iter().zip(kept.instances.iter()) {
        assert_eq!(merged.models[a.model_index], kept.models[b.model_index]);
    }
}

#[test]
fn reads_hand_written_model_chunks() {
    let mut size = Vec::new();
    for v in [2u32, 1, 1] {
        size.extend_from_slice(&v.to_le_bytes());
    }
    let mut xyzi = 2u32.to_le_bytes().to_vec();
    xyzi.extend_from_slice(&[0, 0, 0, 5]);
    xyzi.extend_from_slice(&[1, 0, 0, 7]);
    let mut children = chunk(b"SIZE", &size, &[]);
    children.extend(chunk(b"XYZI", &xyzi, &[]));
    let scene = Scene::read_bytes_with_options(&vox_file(&children), full_options()).expect("scene must parse");
    assert_eq!(scene.file_version, 150);
    assert_eq!(scene.models.len(), 1);
    assert_eq!((scene.models[0].size_x, scene.models[0].size_y, scene.models[0].size_z), (2, 1, 1));
    assert_eq!(scene.models[0].voxels, vec![5, 7]);
    assert_eq!(scene.instances.len(), 1);
    assert_eq!(scene.instances[0].model_index, 0);
    assert_eq!(scene.instances[0].group_index, Some(0));
    assert_eq!(scene.instances[0].layer_index, Some(0));
    assert_eq!(scene.groups.len(), 1);
    assert_eq!(scene.groups[0].parent_group_index, None);
    assert_eq!(scene.layers.len(), 1);
}

#[test]
fn written_scene_reads_back() {
    let mut scene = meta_scene();
    scene.palette.colors[0] = Rgba { r: 9, g: 8, b: 7, a: 6 };
    scene.palette.colors[3] = Rgba { r: 1, g: 2, b: 3, a: 4 };
    scene.models.push(solid_model(2, 5));
    scene.instances.push(instance_of(1, 50));
    let bytes = scene.clone().write().expect("scene must serialize");
    let back = Scene::read_bytes_with_options(&bytes, full_options()).expect("scene must parse");
    assert_eq!(back.file_version, 200);
    assert_eq!(back.models, scene.models);
    assert_eq!(back.palette.colors[0], Rgba { r: 9, g: 8, b: 7, a: 0 });
    assert_eq!(&back.palette.colors[1..], &scene.palette.colors[1..]);
    assert_eq!(back.cameras.len(), scene.cameras.len());
    assert_eq!(back.color_names.len(), scene.color_names.len());
    assert_eq!(back.layers.len(), scene.layers.len());
    assert_eq!((back.anim_range_start, back.anim_range_end), (7, 36));

    let mut old = scene;
    old.file_version = 150;
    let bytes = old.write().expect("scene must serialize");
    let back = Scene::read_bytes_with_options(&bytes, full_options()).expect("scene must parse");
    assert_eq!(back.file_version, 150);
    assert_eq!((back.anim_range_start, back.anim_range_end), (0, 30));
}

#[test]
fn bake_frames_gather_instance_and_group_keyframes() {
    let keyframe = |frame_index: u32| KeyframeTransform { frame_index, transform: CardinalTransform::identity() };
    let mut root = group(None, None);
    root.transform_anim.keyframes = vec![keyframe(9), keyframe(2)];
    let mut child = group(None, Some(0));
    child.transform_anim.keyframes = vec![keyframe(4)];
    let groups = vec![root, child];
    let mut instance = instance_of(0, 0);
    instance.group_index = Some(1);
    instance.transform_anim.keyframes = vec![keyframe(5), keyframe(2)];
    let chain = vox_rs::scene::walk_group_chain(&groups, instance.group_index).expect("chain must settle");
    assert_eq!(chain, vec![1, 0]);
    assert_eq!(vox_rs::bake::bake_frames(&instance, &groups, &chain), vec![2, 4, 5, 9]);
    instance.transform_anim.keyframes.clear();
    assert_eq!(vox_rs::bake::bake_frames(&instance, &groups, &chain), vec![0, 2, 4, 9]);
    assert_eq!(vox_rs::bake::bake_frames(&instance, &groups, &Vec::new()), vec![0]);
}

#[test]
fn group_chain_reports_cycles() {
    let groups = vec![group(None, Some(1)), group(None, Some(0))];
    assert!(matches!(
        vox_rs::scene::walk_group_chain(&groups, Some(0)),
        Err(VoxError::InvalidNodeGraph(_))
    ));
    assert!(matches!(
        vox_rs::scene::walk_group_chain(&groups, Some(5)),
        Err(VoxError::IndexOutOfBounds { .. })
    ));
}
