use rs_fast_image_viewer::{
    window_title,
    Config, ImageFile, ImageHandler, Key, RenderFailure, Response, SortAlgorithm, ViewerSession,
    WindowInput,
};

fn session(n: usize) -> ViewerSession {
    let config = Config { min_window_size: (800, 600), sort_algorithm: SortAlgorithm::FileName };
    let mut h = ImageHandler::new(config);
    let entries = (0..n)
        .map(|i| ImageFile::new(format!("/d/{}.png", i), format!("{}.png", i), None, None))
        .collect();
    h.load_images_from_directory(entries);
    ViewerSession::new(config, h, (1920, 1080))
}

#[test]
fn gpu_set_up_once() {
    let mut s = session(2);
    assert!(s.needs_gpu());
    assert_eq!(s.handle_input(WindowInput::RedrawRequested), Response::Nothing);
    assert_eq!(s.gpu_initialized(true), Response::Reload);
    assert!(!s.needs_gpu());
    assert_eq!(s.surface_size, Some((800, 600)));
    assert_eq!(s.handle_input(WindowInput::RedrawRequested), Response::Render);
}

#[test]
fn zero_sized_resize_is_noop() {
    let mut s = session(1);
    s.gpu_initialized(true);
    assert!(!s.resize(0, 500));
    assert_eq!(s.surface_size, Some((800, 600)));
    assert!(!s.resize(500, 0));
    assert_eq!(s.surface_size, Some((800, 600)));
    assert_eq!(s.handle_input(WindowInput::Resized(0, 0)), Response::Nothing);
    assert_eq!(s.surface_size, Some((800, 600)));
    assert_eq!(s.handle_input(WindowInput::Resized(1024, 768)), Response::ConfigureSurface(1024, 768));
    assert_eq!(s.surface_size, Some((1024, 768)));
}

#[test]
fn resize_before_gpu_is_noop() {
    let mut s = session(1);
    assert!(!s.resize(640, 480));
    assert_eq!(s.surface_size, None);
}

#[test]
fn decode_failure_keeps_texture_and_cursor() {
    let mut s = session(3);
    s.gpu_initialized(true);
    assert_eq!(s.finish_reload(Some((200, 100))), Some((800, 400)));
    assert_eq!(s.texture_size, Some((200, 100)));
    assert_eq!(s.surface_size, Some((800, 400)));
    assert_eq!(s.handle_input(WindowInput::KeyPressed(Key::ArrowRight)), Response::Reload);
    assert_eq!(s.catalog.current_index, 1);
    assert_eq!(s.finish_reload(None), None);
    assert_eq!(s.texture_size, Some((200, 100)));
    assert_eq!(s.surface_size, Some((800, 400)));
    assert_eq!(s.catalog.current_index, 1);
}

#[test]
fn keys_navigate_and_exit() {
    let mut s = session(3);
    s.gpu_initialized(true);
    assert_eq!(s.handle_input(WindowInput::KeyPressed(Key::X)), Response::Reload);
    assert_eq!(s.catalog.current_index, 1);
    assert_eq!(s.handle_input(WindowInput::KeyPressed(Key::Z)), Response::Reload);
    assert_eq!(s.catalog.current_index, 0);
    assert_eq!(s.handle_input(WindowInput::KeyPressed(Key::ArrowLeft)), Response::Reload);
    assert_eq!(s.catalog.current_index, 2);
    assert_eq!(s.handle_input(WindowInput::KeyPressed(Key::Other)), Response::Nothing);
    assert_eq!(s.catalog.current_index, 2);
    assert_eq!(s.handle_input(WindowInput::KeyPressed(Key::Escape)), Response::Exit);
    assert_eq!(s.handle_input(WindowInput::KeyPressed(Key::Enter)), Response::Exit);
    assert_eq!(s.handle_input(WindowInput::CloseRequested), Response::Exit);
}

#[test]
fn render_failures() {
    let mut s = session(1);
    assert_eq!(s.render_failed(RenderFailure::Lost), Response::Nothing);
    s.gpu_initialized(true);
    assert_eq!(s.render_failed(RenderFailure::Lost), Response::ConfigureSurface(800, 600));
    assert_eq!(s.render_failed(RenderFailure::OutOfMemory), Response::Exit);
    assert_eq!(s.render_failed(RenderFailure::Other), Response::Nothing);
}

#[test]
fn window_size_follows_sizing_rule() {
    let s = session(1);
    assert_eq!(s.adjust_window_size(8000, 4000), (1728, 864));
}

#[test]
fn gpu_failure_ends_session() {
    let mut s = session(2);
    assert_eq!(s.gpu_initialized(false), Response::Exit);
    assert!(s.needs_gpu());
    assert_eq!(s.surface_size, None);
}

#[test]
fn title_names_file_and_application() {
    assert_eq!(window_title("cat.png"), "cat.png - rs_fast_image_viewer");
    assert_eq!(window_title(""), " - rs_fast_image_viewer");
}
