use pixelrag::outcome::SidecarOutput;
use pixelrag::render::{
    render_outcome, RawImage, RenderError, RenderedImage, Renderer, DEFAULT_HEIGHT, DEFAULT_WIDTH,
};

fn raw(id: &str, url: &str, path: &str) -> RawImage {
    RawImage { id: id.to_string(), url: url.to_string(), path: path.to_string() }
}

fn output(success: bool, status: &str, stderr: &str, stdout: &str) -> SidecarOutput {
    SidecarOutput {
        success,
        status: status.to_string(),
        stderr: stderr.to_string(),
        stdout: stdout.to_string(),
    }
}

#[test]
fn raw_image_maps_to_rendered_image() {
    let raw = RawImage {
        id: "doc-00".into(),
        url: "https://example.com".into(),
        path: "C:/abs/doc-00.png".into(),
    };
    let img: RenderedImage = raw.into();
    assert_eq!(img.id, "doc-00");
    assert_eq!(img.path, "C:/abs/doc-00.png".to_string());
}

#[test]
fn with_viewport_clamps_to_at_least_one() {
    let r = Renderer::new("s.mjs".to_string(), None, None).with_viewport(0, 0);
    assert_eq!(r.width(), 1);
    assert_eq!(r.height(), 1);
}

#[test]
fn response_count_mismatch_is_an_error() {
    // A 2-image response for 1 url must be rejected — guards the id↔url mapping.
    let resp: serde_json::Value = serde_json::from_str(
        r#"{"images":[{"id":"doc-00","url":"u","path":"p"},{"id":"doc-01","url":"u2","path":"p2"}]}"#,
    )
    .unwrap();
    let images: Vec<RawImage> = resp["images"]
        .as_array()
        .unwrap()
        .iter()
        .map(|e| raw(e["id"].as_str().unwrap(), e["url"].as_str().unwrap(), e["path"].as_str().unwrap()))
        .collect();
    assert_eq!(images.len(), 2);
    match render_outcome(1, Ok(images)) {
        Err(RenderError::Sidecar(m)) => assert_eq!(m, "render sidecar returned 2 images for 1 urls"),
        other => panic!("expected a count mismatch, got {:?}", other),
    }
}

#[test]
fn matching_reply_keeps_order() {
    let out = render_outcome(2, Ok(vec![raw("doc-00", "a", "pa"), raw("doc-01", "b", "pb")])).unwrap();
    assert_eq!(out.len(), 2);
    assert_eq!(out[0], RenderedImage { id: "doc-00".into(), url: "a".into(), path: "pa".into() });
    assert_eq!(out[1].url, "b");
    assert_eq!(out[1].path, "pb");
}

#[test]
fn undecodable_reply_is_a_parse_error() {
    match render_outcome(1, Err("expected value at line 1 column 1".to_string())) {
        Err(e @ RenderError::Parse(_)) => assert_eq!(
            e.message(),
            "pixelrag render parse error: parse render response JSON: expected value at line 1 column 1"
        ),
        other => panic!("expected a parse error, got {:?}", other),
    }
}

#[test]
fn renderer_defaults_and_overrides() {
    let r = Renderer::new("side.mjs".to_string(), None, None);
    assert_eq!(r.sidecar_path(), "side.mjs");
    assert_eq!(r.node_bin(), "node");
    assert_eq!((r.width(), r.height()), (DEFAULT_WIDTH, DEFAULT_HEIGHT));
    assert_eq!((DEFAULT_WIDTH, DEFAULT_HEIGHT), (1024, 768));

    let r = Renderer::new("side.mjs".to_string(), Some("other.mjs".to_string()), Some("nodejs".to_string()));
    assert_eq!(r.sidecar_path(), "other.mjs");
    assert_eq!(r.node_bin(), "nodejs");

    // An empty script override is ignored; an empty node override is kept.
    let r = Renderer::new("side.mjs".to_string(), Some(String::new()), Some(String::new()));
    assert_eq!(r.sidecar_path(), "side.mjs");
    assert_eq!(r.node_bin(), "");

    let r = Renderer::new("s".to_string(), None, None).with_viewport(800, 0);
    assert_eq!((r.width(), r.height()), (800, 1));
}

#[test]
fn sidecar_reply_outcomes() {
    match Renderer::reply(&output(false, "exit status: 3", "  no browser found \n", "")) {
        Err(RenderError::Sidecar(m)) => {
            assert_eq!(m, "render sidecar exited with exit status: 3: no browser found")
        }
        other => panic!("unexpected {:?}", other),
    }
    match Renderer::reply(&output(true, "exit status: 0", "", " \n\t")) {
        Err(RenderError::Sidecar(m)) => {
            assert_eq!(m, "render sidecar produced empty stdout (no JSON response)")
        }
        other => panic!("unexpected {:?}", other),
    }
    assert_eq!(Renderer::reply(&output(true, "exit status: 0", "warn", "\n{\"images\":[]}\n")).unwrap(), "{\"images\":[]}");
}

#[test]
fn render_error_messages() {
    assert_eq!(RenderError::Spawn("x".into()).message(), "pixelrag render spawn error: x");
    assert_eq!(RenderError::Io("y".into()).message(), "pixelrag render io error: y");
    assert_eq!(RenderError::Sidecar("z".into()).message(), "pixelrag render sidecar error: z");
}
