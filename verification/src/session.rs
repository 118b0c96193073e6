//! The bookkeeping of one compute-device session.
//!
//! A session owns one pipeline and one set of device buffers. It compiles
//! the pipeline anew only when the method changes and creates buffers anew
//! only when a size changes; otherwise it writes over what is there. At most
//! one computation is outstanding. `TemplateMatcher` decides what a dispatch
//! has to do; whoever holds the device carries the decision out.

use vstd::prelude::*;
use crate::error::MatchError;
use crate::method::MatchTemplateMethod;
use crate::sample::Sample;
use crate::image::Image;

verus! {

/// How a buffer receives its contents for a dispatch.
#[derive(Clone, Copy, Debug, PartialEq, Eq, Structural)]
pub enum Upload {
    /// A new buffer is created with the contents.
    Create,
    /// The contents are written over those of the buffer that exists.
    Overwrite,
}

/// What one dispatch has to do on the device, in this order: drop a pending
/// result, compile, upload, recreate the output buffers, run.
#[derive(Clone, Copy, Debug, PartialEq, Eq)]
pub struct Dispatch {
    /// A result that was never collected is dropped first.
    pub discard_pending: bool,
    /// The method whose kernel is compiled into a new pipeline, if the
    /// pipeline of the last dispatch cannot be used.
    pub compile: Option<MatchTemplateMethod>,
    /// How the frame reaches the device.
    pub input: Upload,
    /// How the template reaches the device.
    pub template: Upload,
    /// Whether the result buffer, the staging buffer and the bindings are
    /// created anew, and the sizes written to the device.
    pub rebuild_outputs: bool,
    /// Width and height of the score grid.
    pub result_size: (u32, u32),
    /// Size of the score grid in bytes, at four bytes a cell.
    pub result_bytes: u64,
    /// Work groups to launch along x, y and z; a group covers 16 by 16 cells.
    pub workgroups: (u32, u32, u32),
}

/// What a session remembers between calls.
pub struct SessionView {
    /// The method of the compiled pipeline, if there is one.
    pub method: Option<MatchTemplateMethod>,
    /// Size of the frame buffer, if there is one.
    pub input_size: Option<(u32, u32)>,
    /// Size of the template buffer, if there is one.
    pub template_size: Option<(u32, u32)>,
    /// Size of the score grid of the last dispatch.
    pub result_size: (u32, u32),
    /// Whether a dispatched computation has not been collected yet.
    pub pending: bool,
}

/// Work groups needed to cover `cells` cells along one axis.
pub open spec fn groups(cells: u32) -> int {
    (cells + 15) / 16
}

/// The error that a dispatch with these arguments meets, if any. A method
/// without a kernel is refused first, then a template that is empty or does
/// not fit inside the frame, then a score grid of more than `u32::MAX`
/// cells.
pub open spec fn dispatch_error(
    input_size: (u32, u32),
    template_size: (u32, u32),
    method: MatchTemplateMethod,
) -> Option<MatchError> {
    if !method.has_kernel() {
        Some(MatchError::UnsupportedMethod)
    } else if template_size.0 == 0 || template_size.1 == 0 || template_size.0 > input_size.0
        || template_size.1 > input_size.1 {
        Some(MatchError::DimensionMismatch)
    } else if (input_size.0 - template_size.0 + 1) * (input_size.1 - template_size.1 + 1)
        > u32::MAX {
        Some(MatchError::OutOfBounds)
    } else {
        None
    }
}

/// The size of the score grid for a template that fits inside the frame.
pub open spec fn grid_size(input_size: (u32, u32), template_size: (u32, u32)) -> (u32, u32) {
    (
        (input_size.0 - template_size.0 + 1) as u32,
        (input_size.1 - template_size.1 + 1) as u32,
    )
}

/// What a dispatch with these arguments does in the state `s`, where
/// `dispatch_error` finds nothing to refuse.
pub open spec fn plan(
    s: SessionView,
    input_size: (u32, u32),
    template_size: (u32, u32),
    method: MatchTemplateMethod,
) -> Dispatch {
    let new_input = s.input_size != Some(input_size);
    let new_template = s.template_size != Some(template_size);
    let size = grid_size(input_size, template_size);
    Dispatch {
        discard_pending: s.pending,
        compile: if s.method == Some(method) {
            None
        } else {
            Some(method)
        },
        input: if new_input {
            Upload::Create
        } else {
            Upload::Overwrite
        },
        template: if new_template {
            Upload::Create
        } else {
            Upload::Overwrite
        },
        rebuild_outputs: new_input || new_template,
        result_size: size,
        result_bytes: (size.0 * size.1 * 4) as u64,
        workgroups: (groups(size.0) as u32, groups(size.1) as u32, 1),
    }
}

/// The state after a dispatch that was not refused.
pub open spec fn after_dispatch(
    input_size: (u32, u32),
    template_size: (u32, u32),
    method: MatchTemplateMethod,
) -> SessionView {
    SessionView {
        method: Some(method),
        input_size: Some(input_size),
        template_size: Some(template_size),
        result_size: grid_size(input_size, template_size),
        pending: true,
    }
}

/// Whether a readback is the grid that the session awaits: a computation
/// is outstanding, the device handed cells back, and as many as the grid
/// has.
pub open spec fn readback_fits(s: SessionView, readback: Option<Seq<Sample>>) -> bool {
    &&& s.pending
    &&& readback is Some
    &&& readback->Some_0.len() == s.result_size.0 * s.result_size.1
}

/// The number of buffers that a dispatch creates: frame and template count
/// one each, result and staging buffer one each.
pub open spec fn buffers_created(d: Dispatch) -> nat {
    let a: nat = if d.input == Upload::Create { 1 } else { 0 };
    let b: nat = if d.template == Upload::Create { 1 } else { 0 };
    let c: nat = if d.rebuild_outputs { 2 } else { 0 };
    a + b + c
}

impl Dispatch {
    /// The number of buffers that this dispatch creates.
    pub fn created(&self) -> (r: u32)
        ensures
            r == buffers_created(*self),
    {
        let a: u32 = match self.input {
            Upload::Create => 1,
            Upload::Overwrite => 0,
        };
        let b: u32 = match self.template {
            Upload::Create => 1,
            Upload::Overwrite => 0,
        };
        let c: u32 = if self.rebuild_outputs {
            2
        } else {
            0
        };
        a + b + c
    }
}

/// The session of one engine instance.
pub struct TemplateMatcher {
    last_method: Option<MatchTemplateMethod>,
    last_input_size: Option<(u32, u32)>,
    last_template_size: Option<(u32, u32)>,
    last_result_size: (u32, u32),
    matching_ongoing: bool,
}

impl View for TemplateMatcher {
    type V = SessionView;

    closed spec fn view(&self) -> SessionView {
        SessionView {
            method: self.last_method,
            input_size: self.last_input_size,
            template_size: self.last_template_size,
            result_size: self.last_result_size,
            pending: self.matching_ongoing,
        }
    }
}

impl Default for TemplateMatcher {
    /// A session as `TemplateMatcher::new` makes it.
    fn default() -> (r: Self)
        ensures
            r@ == (SessionView {
                method: None,
                input_size: None,
                template_size: None,
                result_size: (0u32, 0u32),
                pending: false,
            }),
    {
        Self::new()
    }
}

fn same_size(a: Option<(u32, u32)>, b: (u32, u32)) -> (r: bool)
    ensures
        r == (a == Some(b)),
{
    match a {
        Some(s) => s.0 == b.0 && s.1 == b.1,
        None => false,
    }
}

fn same_method(a: Option<MatchTemplateMethod>, b: MatchTemplateMethod) -> (r: bool)
    ensures
        r == (a == Some(b)),
{
    match a {
        Some(m) => m == b,
        None => false,
    }
}

fn group_count(cells: u32) -> (r: u32)
    ensures
        r == groups(cells),
{
    let whole: u32 = cells / 16;
    if cells % 16 == 0 {
        whole
    } else {
        whole + 1
    }
}

impl TemplateMatcher {
    #[verifier::type_invariant]
    spec fn inv(self) -> bool {
        self.last_result_size.0 * self.last_result_size.1 <= u32::MAX
    }

    /// A session that has compiled nothing, holds no buffer and awaits no
    /// result.
    pub fn new() -> (r: Self)
        ensures
            r@ == (SessionView {
                method: None,
                input_size: None,
                template_size: None,
                result_size: (0u32, 0u32),
                pending: false,
            }),
    {
        TemplateMatcher {
            last_method: None,
            last_input_size: None,
            last_template_size: None,
            last_result_size: (0, 0),
            matching_ongoing: false,
        }
    }

    /// The size of the score grid that is waiting to be collected, if a
    /// computation is outstanding.
    pub fn pending_result(&self) -> (r: Option<(u32, u32)>)
        ensures
            r == (if self@.pending {
                Some(self@.result_size)
            } else {
                None
            }),
            r is Some ==> r->Some_0.0 * r->Some_0.1 <= u32::MAX,
    {
        proof {
            use_type_invariant(self);
        }
        if self.matching_ongoing {
            Some(self.last_result_size)
        } else {
            None
        }
    }

    /// Collects the result of the outstanding computation. `readback` is
    /// what the device handed back once it signalled completion, or `None`
    /// where the readback failed. The grid is handed out where a
    /// computation was outstanding and the readback holds as many cells as
    /// the grid has; a failed readback, or one of another length, yields no
    /// grid. Either way nothing is outstanding afterwards.
    pub fn wait_for_result(&mut self, readback: Option<Vec<Sample>>) -> (r: Option<Image>)
        ensures
            r is Some <==> readback_fits(
                old(self)@,
                match readback {
                    Some(v) => Some(v@),
                    None => None,
                },
            ),
            r is Some ==> r->Some_0@ == (crate::image::ImageView {
                width: old(self)@.result_size.0 as nat,
                height: old(self)@.result_size.1 as nat,
                data: readback->Some_0@,
            }),
            final(self)@ == (SessionView { pending: false, ..old(self)@ }),
    {
        proof {
            use_type_invariant(&*self);
        }
        if !self.matching_ongoing {
            return None;
        }
        self.matching_ongoing = false;
        let (width, height) = self.last_result_size;
        let cells: u64 = width as u64 * height as u64;
        match readback {
            Some(data) => {
                if data.len() as u64 == cells {
                    Some(Image::new(data, width, height).unwrap())
                } else {
                    None
                }
            },
            None => None,
        }
    }

    /// Decides what sliding a template of `template_size` over a frame of
    /// `input_size` has to do on the device, and records the dispatch. A
    /// refused call leaves the session as it was.
    pub fn match_template(
        &mut self,
        input_size: (u32, u32),
        template_size: (u32, u32),
        method: MatchTemplateMethod,
    ) -> (r: Result<Dispatch, MatchError>)
        ensures
            match dispatch_error(input_size, template_size, method) {
                Some(e) => r == Err::<Dispatch, MatchError>(e) && final(self)@ == old(self)@,
                None => r == Ok::<Dispatch, MatchError>(
                    plan(old(self)@, input_size, template_size, method),
                ) && final(self)@ == after_dispatch(input_size, template_size, method),
            },
    {
        proof {
            use_type_invariant(&*self);
        }
        if method.entry_point().is_err() {
            return Err(MatchError::UnsupportedMethod);
        }
        if template_size.0 == 0 || template_size.1 == 0 || template_size.0 > input_size.0
            || template_size.1 > input_size.1 {
            return Err(MatchError::DimensionMismatch);
        }
        let width: u32 = input_size.0 - template_size.0 + 1;
        let height: u32 = input_size.1 - template_size.1 + 1;
        assert(0 <= width * height <= 0xffff_ffff * 0xffff_ffff) by (nonlinear_arith)
            requires
                0 <= width <= 0xffff_ffff,
                0 <= height <= 0xffff_ffff,
        ;
        let cells: u64 = width as u64 * height as u64;
        if cells > u32::MAX as u64 {
            return Err(MatchError::OutOfBounds);
        }
        let new_input = !same_size(self.last_input_size, input_size);
        let new_template = !same_size(self.last_template_size, template_size);
        let dispatch = Dispatch {
            discard_pending: self.matching_ongoing,
            compile: if same_method(self.last_method, method) {
                None
            } else {
                Some(method)
            },
            input: if new_input {
                Upload::Create
            } else {
                Upload::Overwrite
            },
            template: if new_template {
                Upload::Create
            } else {
                Upload::Overwrite
            },
            rebuild_outputs: new_input || new_template,
            result_size: (width, height),
            result_bytes: cells * 4,
            workgroups: (group_count(width), group_count(height), 1),
        };
        self.last_method = Some(method);
        self.last_input_size = Some(input_size);
        self.last_template_size = Some(template_size);
        self.last_result_size = (width, height);
        self.matching_ongoing = true;
        Ok(dispatch)
    }
}

/// Two dispatches in a row with the same frame size and the same template
/// size: the second creates no buffer, whatever the methods are.
pub proof fn lemma_same_sizes_reuse_buffers(
    s: SessionView,
    input_size: (u32, u32),
    template_size: (u32, u32),
    first: MatchTemplateMethod,
    second: MatchTemplateMethod,
)
    ensures
        buffers_created(
            plan(
                after_dispatch(input_size, template_size, first),
                input_size,
                template_size,
                second,
            ),
        ) == 0,
        plan(
            after_dispatch(input_size, template_size, first),
            input_size,
            template_size,
            second,
        ).input == Upload::Overwrite,
        plan(
            after_dispatch(input_size, template_size, first),
            input_size,
            template_size,
            second,
        ).template == Upload::Overwrite,
{
}

/// A dispatch whose template size differs from that of the dispatch before,
/// on a frame of the same size: the template buffer is created anew, and
/// with it the result and staging buffers; the frame buffer is written
/// over. The dispatch after it, with the sizes unchanged, creates nothing:
/// the change costs one reallocation.
pub proof fn lemma_changed_template_reallocates_once(
    input_size: (u32, u32),
    before: (u32, u32),
    after: (u32, u32),
    m0: MatchTemplateMethod,
    m1: MatchTemplateMethod,
    m2: MatchTemplateMethod,
)
    requires
        before != after,
    ensures
        ({
            let d = plan(after_dispatch(input_size, before, m0), input_size, after, m1);
            d.template == Upload::Create && d.input == Upload::Overwrite && d.rebuild_outputs
                && buffers_created(d) == 3
        }),
        buffers_created(plan(after_dispatch(input_size, after, m1), input_size, after, m2)) == 0,
{
}

/// The pipeline is compiled exactly when the method differs from that of
/// the dispatch before.
pub proof fn lemma_pipeline_reuse(
    input_size: (u32, u32),
    template_size: (u32, u32),
    first: MatchTemplateMethod,
    second: MatchTemplateMethod,
    next_input: (u32, u32),
    next_template: (u32, u32),
)
    ensures
        plan(after_dispatch(input_size, template_size, first), next_input, next_template, second).compile
            is None <==> first == second,
{
}

} // verus!
