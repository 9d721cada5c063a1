use std::sync::Arc;

use spritec::query3d::{FileQuery, QueryBackend};
use spritec::renderer::geometry_cache::GeometryCache;
use spritec::renderer::render::{Render, RenderCamera, RenderLight};
use spritec::renderer::rendered_image::{RenderCamera as SharedCamera, RenderLights, Size};
use spritec::renderer::uniform_map::UniformMap;

struct Answers;

impl QueryBackend for Answers {
    type LightQuery = u32;
    type CameraQuery = u32;
    type Light = String;
    type Camera = String;
    type Error = String;

    fn query_lights(&self, query: &u32) -> Result<Arc<Vec<Arc<String>>>, String> {
        if *query == 0 {
            Err("no lights".to_string())
        } else {
            Ok(Arc::new((0..*query).map(|i| Arc::new(format!("light{}", i))).collect()))
        }
    }

    fn query_camera(&self, query: &u32) -> Result<Arc<String>, String> {
        Ok(Arc::new(format!("camera{}", query)))
    }
}

#[test]
fn fetch_lights_given_or_queried() {
    let given: RenderLights<Answers> = RenderLights::Lights(Arc::new(vec![Arc::new("sun".to_string())]));
    assert_eq!(*given.fetch_lights().unwrap()[0], "sun");

    let queried: RenderLights<Answers> = RenderLights::Query(FileQuery { query: 2, file: Arc::new(Answers) });
    let lights = queried.fetch_lights().unwrap();
    assert_eq!(lights.len(), 2);
    assert_eq!(*lights[1], "light1");

    let failing: RenderLights<Answers> = RenderLights::Query(FileQuery { query: 0, file: Arc::new(Answers) });
    assert_eq!(failing.fetch_lights().err(), Some("no lights".to_string()));
}

#[test]
fn fetch_camera_given_or_queried() {
    let given: SharedCamera<Answers> = SharedCamera::Camera(Arc::new("front".to_string()));
    assert_eq!(*given.fetch_camera().unwrap(), "front");
    let queried: SharedCamera<Answers> = SharedCamera::Query(FileQuery { query: 3, file: Arc::new(Answers) });
    assert_eq!(*queried.fetch_camera().unwrap(), "camera3");
}

#[test]
fn to_light_and_to_camera_give_what_was_given() {
    let light: RenderLight<&str, (), ()> = RenderLight::Light("sun");
    assert_eq!(light.to_light::<()>(), Ok("sun"));
    let camera: RenderCamera<&str, (), ()> = RenderCamera::Camera("top");
    assert_eq!(camera.to_camera::<()>(), Ok("top"));
}

#[test]
fn total_size_is_scaled_size() {
    let render: Render<(), (), (), ()> = Render {
        size: Size { width: 30, height: 20 },
        scale: 4,
        background: (),
        camera: (),
        lights: vec![],
        models: vec![],
    };
    assert_eq!(render.total_size(), Size { width: 120, height: 80 });
}

#[test]
fn geometry_cache_hands_out_references() {
    // A reference holds on to the cache it came from, as long as it is used
    let mut cache: GeometryCache<&str> = GeometryCache::new();
    let a = cache.insert_model("a");
    let a_again = a;
    assert!(a == a_again);
    let b = cache.insert_model("b");
    assert!(b == b);
}

fn names<V: Clone>(map: &UniformMap<V>) -> Vec<(String, V)> {
    map.entries().iter().map(|(n, v)| (n.clone(), v.clone())).collect()
}

#[test]
fn uniform_insert_overwrites() {
    let mut map: UniformMap<u32> = UniformMap::new();
    map.insert("color".to_string(), 1);
    map.insert("intensity".to_string(), 2);
    map.insert("color".to_string(), 3);
    assert_eq!(names(&map), vec![("color".to_string(), 3), ("intensity".to_string(), 2)]);
}

#[test]
fn uniform_insert_nested_prefixes_names() {
    let mut light: UniformMap<u32> = UniformMap::default();
    light.insert("color".to_string(), 7);
    light.insert("range".to_string(), 8);
    let mut map: UniformMap<u32> = UniformMap::new();
    map.insert("light.color".to_string(), 1);
    map.insert("ambient".to_string(), 2);
    map.insert_nested("light", light);
    assert_eq!(
        names(&map),
        vec![
            ("light.color".to_string(), 7),
            ("ambient".to_string(), 2),
            ("light.range".to_string(), 8),
        ]
    );
}

#[test]
fn cloned_uniform_map_has_the_same_uniforms() {
    let mut map: UniformMap<String> = UniformMap::new();
    map.insert("color".to_string(), "red".to_string());
    map.insert("range".to_string(), "far".to_string());
    let copy = map.clone();
    map.insert("color".to_string(), "blue".to_string());
    assert_eq!(
        names(&copy),
        vec![("color".to_string(), "red".to_string()), ("range".to_string(), "far".to_string())]
    );
}
