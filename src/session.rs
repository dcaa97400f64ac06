use vstd::prelude::*;
use crate::catalog::{ImageHandler, next_index, previous_index};
use crate::config::Config;
use crate::sizing::{fitted_size, fitted_window_size};

verus! {

/// A key the viewer tells apart.
#[derive(Debug, Clone, Copy, PartialEq, Eq, Structural)]
pub enum Key {
    Escape,
    Enter,
    ArrowRight,
    X,
    ArrowLeft,
    Z,
    Other,
}

/// An event of the window, as the host delivers it.
#[derive(Debug, Clone, Copy, PartialEq, Eq, Structural)]
pub enum WindowInput {
    CloseRequested,
    /// A key went down.
    KeyPressed(Key),
    /// The window's inner size changed.
    Resized(u32, u32),
    RedrawRequested,
}

/// Why a frame could not be drawn.
#[derive(Debug, Clone, Copy, PartialEq, Eq, Structural)]
pub enum RenderFailure {
    /// The surface was lost and has to be configured again.
    Lost,
    /// The device ran out of memory.
    OutOfMemory,
    /// Anything else (timeout, outdated surface, ...).
    Other,
}

/// What the host is to do next.
#[derive(Debug, Clone, Copy, PartialEq, Eq, Structural)]
pub enum Response {
    Nothing,
    /// End the session.
    Exit,
    /// Decode the file under the cursor and report the outcome to `finish_reload`.
    Reload,
    /// Configure the surface at this size.
    ConfigureSurface(u32, u32),
    /// Draw a frame.
    Render,
}

/// The viewer's state apart from the window and the GPU objects themselves.
pub struct ViewerSession {
    /// The files and the cursor.
    pub catalog: ImageHandler,
    /// Settings.
    pub config: Config,
    /// Size of the desktop.
    pub desktop_size: (u32, u32),
    /// Size the surface is configured at; none until the GPU is set up.
    pub surface_size: Option<(u32, u32)>,
    /// Size of the texture bound for drawing; none until an image is uploaded.
    pub texture_size: Option<(u32, u32)>,
}

/// The surface size after a resize request: the request where both of its
/// sides are positive and the surface exists, else what was there.
pub open spec fn resized(surface: Option<(u32, u32)>, width: u32, height: u32) -> Option<(u32, u32)> {
    if width > 0 && height > 0 && surface.is_some() {
        Some((width, height))
    } else {
        surface
    }
}

/// Text that follows the file name in the window title.
pub open spec fn title_suffix() -> Seq<char> {
    seq![' ', '-', ' ', 'r', 's', '_', 'f', 'a', 's', 't', '_', 'i', 'm', 'a', 'g', 'e', '_', 'v', 'i', 'e', 'w', 'e', 'r']
}

/// Relies on std's `format!`: "{}{}" writes `a` and then `b`.
#[verifier::external_body]
fn concat(a: &str, b: &str) -> (r: String)
    ensures
        r@ == a@ + b@,
{
    format!("{}{}", a, b)
}

/// The window title for a file: its name, then " - rs_fast_image_viewer".
pub fn window_title(name: &str) -> (r: String)
    ensures
        r@ == name@ + title_suffix(),
{
    let suffix = " - rs_fast_image_viewer";
    proof {
        reveal_strlit(" - rs_fast_image_viewer");
    }
    assert(suffix@ =~= title_suffix());
    concat(name, suffix)
}

/// What a pressed key asks for.
pub open spec fn key_response(key: Key) -> Response {
    match key {
        Key::Escape | Key::Enter => Response::Exit,
        Key::ArrowRight | Key::X | Key::ArrowLeft | Key::Z => Response::Reload,
        Key::Other => Response::Nothing,
    }
}

impl ViewerSession {
    pub open spec fn wf(&self) -> bool {
        self.catalog.wf()
    }

    pub fn new(config: Config, catalog: ImageHandler, desktop_size: (u32, u32)) -> (r: Self)
        ensures
            r.catalog == catalog,
            r.config == config,
            r.desktop_size == desktop_size,
            r.surface_size.is_none(),
            r.texture_size.is_none(),
    {
        ViewerSession { catalog, config, desktop_size, surface_size: None, texture_size: None }
    }

    /// Whether the GPU is still to be set up: true only before
    /// `gpu_initialized`, so that it is set up once.
    pub fn needs_gpu(&self) -> (r: bool)
        ensures
            r == self.surface_size.is_none(),
    {
        self.surface_size.is_none()
    }

    /// Takes the outcome of setting up the GPU. On success the surface
    /// exists at the minimum window size and the first image is to be loaded
    /// next; on failure nothing changes and the session ends.
    pub fn gpu_initialized(&mut self, succeeded: bool) -> (r: Response)
        requires
            old(self).surface_size.is_none(),
        ensures
            succeeded ==> *final(self) == (ViewerSession {
                surface_size: Some(old(self).config.min_window_size),
                ..*old(self)
            }),
            succeeded ==> r == Response::Reload,
            !succeeded ==> *final(self) == *old(self),
            !succeeded ==> r == Response::Exit,
    {
        if succeeded {
            self.surface_size = Some(self.config.min_window_size);
            Response::Reload
        } else {
            Response::Exit
        }
    }

    /// Asks for the surface to be configured at `new_width` by `new_height`;
    /// a request with a zero side, or before the GPU is set up, changes
    /// nothing. Returns whether the surface is to be configured.
    pub fn resize(&mut self, new_width: u32, new_height: u32) -> (r: bool)
        ensures
            final(self).surface_size == resized(old(self).surface_size, new_width, new_height),
            final(self).catalog == old(self).catalog,
            final(self).config == old(self).config,
            final(self).desktop_size == old(self).desktop_size,
            final(self).texture_size == old(self).texture_size,
            r == (new_width > 0 && new_height > 0 && old(self).surface_size.is_some()),
    {
        if new_width > 0 && new_height > 0 && self.surface_size.is_some() {
            self.surface_size = Some((new_width, new_height));
            true
        } else {
            false
        }
    }

    /// The window size for an image of the given size.
    pub fn adjust_window_size(&self, image_width: u32, image_height: u32) -> (r: (u32, u32))
        ensures
            r.0 == fitted_size(
                image_width as int,
                image_height as int,
                self.config.min_window_size.0 as int,
                self.config.min_window_size.1 as int,
                self.desktop_size.0 as int,
                self.desktop_size.1 as int,
            ).0,
            r.1 == fitted_size(
                image_width as int,
                image_height as int,
                self.config.min_window_size.0 as int,
                self.config.min_window_size.1 as int,
                self.desktop_size.0 as int,
                self.desktop_size.1 as int,
            ).1,
    {
        fitted_window_size(image_width, image_height, self.config.min_window_size, self.desktop_size)
    }

    /// Takes the outcome of decoding the file under the cursor: the image's
    /// size, or none where decoding failed. On success the new texture is
    /// bound, the surface follows the fitted window size, and that size is
    /// returned for the window; on failure nothing changes.
    pub fn finish_reload(&mut self, decoded: Option<(u32, u32)>) -> (r: Option<(u32, u32)>)
        ensures
            decoded.is_none() ==> *final(self) == *old(self) && r.is_none(),
            decoded.is_some() ==> {
                let (w, h) = decoded.unwrap();
                let fit = fitted_size(
                    w as int,
                    h as int,
                    old(self).config.min_window_size.0 as int,
                    old(self).config.min_window_size.1 as int,
                    old(self).desktop_size.0 as int,
                    old(self).desktop_size.1 as int,
                );
                &&& r.is_some()
                &&& r.unwrap().0 == fit.0
                &&& r.unwrap().1 == fit.1
                &&& final(self).texture_size == decoded
                &&& final(self).surface_size == resized(
                    old(self).surface_size,
                    r.unwrap().0,
                    r.unwrap().1,
                )
                &&& final(self).catalog == old(self).catalog
                &&& final(self).config == old(self).config
                &&& final(self).desktop_size == old(self).desktop_size
            },
    {
        match decoded {
            None => None,
            Some((w, h)) => {
                self.texture_size = Some((w, h));
                let size = self.adjust_window_size(w, h);
                self.resize(size.0, size.1);
                Some(size)
            },
        }
    }

    /// Reacts to a window event: closing, Escape and Enter end the session;
    /// right arrow and X move to the next file, left arrow and Z to the
    /// previous one, each followed by a reload; a resize goes to the surface
    /// as it is; a redraw request draws a frame once the GPU is set up.
    pub fn handle_input(&mut self, input: WindowInput) -> (r: Response)
        requires
            old(self).wf(),
        ensures
            final(self).wf(),
            final(self).config == old(self).config,
            final(self).desktop_size == old(self).desktop_size,
            final(self).texture_size == old(self).texture_size,
            final(self).catalog.images == old(self).catalog.images,
            final(self).catalog.config == old(self).catalog.config,
            final(self).catalog.current_index == match input {
                WindowInput::KeyPressed(Key::ArrowRight) | WindowInput::KeyPressed(Key::X) => next_index(
                    old(self).catalog.current_index as nat,
                    old(self).catalog.images@.len(),
                ),
                WindowInput::KeyPressed(Key::ArrowLeft) | WindowInput::KeyPressed(Key::Z) => previous_index(
                    old(self).catalog.current_index as nat,
                    old(self).catalog.images@.len(),
                ),
                _ => old(self).catalog.current_index as nat,
            },
            final(self).surface_size == match input {
                WindowInput::Resized(w, h) => resized(old(self).surface_size, w, h),
                _ => old(self).surface_size,
            },
            r == match input {
                WindowInput::CloseRequested => Response::Exit,
                WindowInput::KeyPressed(k) => key_response(k),
                WindowInput::Resized(w, h) => if w > 0 && h > 0 && old(self).surface_size.is_some() {
                    Response::ConfigureSurface(w, h)
                } else {
                    Response::Nothing
                },
                WindowInput::RedrawRequested => if old(self).surface_size.is_some() {
                    Response::Render
                } else {
                    Response::Nothing
                },
            },
    {
        match input {
            WindowInput::CloseRequested => Response::Exit,
            WindowInput::KeyPressed(key) => match key {
                Key::Escape | Key::Enter => Response::Exit,
                Key::ArrowRight | Key::X => {
                    self.catalog.next_image();
                    Response::Reload
                },
                Key::ArrowLeft | Key::Z => {
                    self.catalog.previous_image();
                    Response::Reload
                },
                Key::Other => Response::Nothing,
            },
            WindowInput::Resized(w, h) => {
                if self.resize(w, h) {
                    Response::ConfigureSurface(w, h)
                } else {
                    Response::Nothing
                }
            },
            WindowInput::RedrawRequested => {
                if self.surface_size.is_some() {
                    Response::Render
                } else {
                    Response::Nothing
                }
            },
        }
    }

    /// Reacts to a frame that could not be drawn: a lost surface is configured
    /// again at its size, running out of memory ends the session, anything
    /// else waits for the next frame. The state does not change.
    pub fn render_failed(&self, failure: RenderFailure) -> (r: Response)
        ensures
            r == match failure {
                RenderFailure::Lost => match self.surface_size {
                    Some((w, h)) => Response::ConfigureSurface(w, h),
                    None => Response::Nothing,
                },
                RenderFailure::OutOfMemory => Response::Exit,
                RenderFailure::Other => Response::Nothing,
            },
    {
        match failure {
            RenderFailure::Lost => match self.surface_size {
                Some((w, h)) => Response::ConfigureSurface(w, h),
                None => Response::Nothing,
            },
            RenderFailure::OutOfMemory => Response::Exit,
            RenderFailure::Other => Response::Nothing,
        }
    }
}

} // verus!
