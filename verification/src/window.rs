//! How a convolution or a pooling walks its input.
use vstd::prelude::*;

verus! {

/// The taps, the stride and the padding of a window along rows and columns.
pub struct WindowView {
    pub reach_rows: nat,
    pub reach_columns: nat,
    pub stride_rows: nat,
    pub stride_columns: nat,
    pub pad_rows: nat,
    pub pad_columns: nat,
}

/// A window that covers at least one element and moves on at every step.
#[derive(Clone, Copy, PartialEq, Eq, Debug, Hash, Structural)]
pub struct Window {
    reach_rows: u32,
    reach_columns: u32,
    stride_rows: u32,
    stride_columns: u32,
    pad_rows: u32,
    pad_columns: u32,
}

impl View for Window {
    type V = WindowView;

    closed spec fn view(&self) -> WindowView {
        WindowView {
            reach_rows: self.reach_rows as nat,
            reach_columns: self.reach_columns as nat,
            stride_rows: self.stride_rows as nat,
            stride_columns: self.stride_columns as nat,
            pad_rows: self.pad_rows as nat,
            pad_columns: self.pad_columns as nat,
        }
    }
}

impl Window {
    #[verifier::type_invariant]
    spec fn inv(self) -> bool {
        self.reach_rows > 0 && self.reach_columns > 0 && self.stride_rows > 0 && self.stride_columns > 0
    }

    /// A window of `reach` taps that moves by `stride` over an input padded by `padding`.
    pub fn new(reach: [u32; 2], stride: [u32; 2], padding: [u32; 2]) -> (r: Window)
        requires
            reach[0] > 0 && reach[1] > 0,
            stride[0] > 0 && stride[1] > 0,
        ensures
            r@ == (WindowView {
                reach_rows: reach[0] as nat,
                reach_columns: reach[1] as nat,
                stride_rows: stride[0] as nat,
                stride_columns: stride[1] as nat,
                pad_rows: padding[0] as nat,
                pad_columns: padding[1] as nat,
            }),
    {
        Window {
            reach_rows: reach[0],
            reach_columns: reach[1],
            stride_rows: stride[0],
            stride_columns: stride[1],
            pad_rows: padding[0],
            pad_columns: padding[1],
        }
    }

    /// The window `new` builds, or nothing where a reach or a stride is zero.
    pub fn try_new(reach: [u32; 2], stride: [u32; 2], padding: [u32; 2]) -> (r: Option<Window>)
        ensures
            r is Some <==> (reach[0] > 0 && reach[1] > 0 && stride[0] > 0 && stride[1] > 0),
            r matches Some(w) ==> w@ == (WindowView {
                reach_rows: reach[0] as nat,
                reach_columns: reach[1] as nat,
                stride_rows: stride[0] as nat,
                stride_columns: stride[1] as nat,
                pad_rows: padding[0] as nat,
                pad_columns: padding[1] as nat,
            }),
    {
        if reach[0] > 0 && reach[1] > 0 && stride[0] > 0 && stride[1] > 0 {
            Some(Window::new(reach, stride, padding))
        } else {
            None
        }
    }

    /// The window `sliding` builds, or nothing where a reach is zero.
    pub fn try_sliding(reach: [u32; 2]) -> (r: Option<Window>)
        ensures
            r is Some <==> (reach[0] > 0 && reach[1] > 0),
            r matches Some(w) ==> w@ == (WindowView {
                reach_rows: reach[0] as nat,
                reach_columns: reach[1] as nat,
                stride_rows: 1,
                stride_columns: 1,
                pad_rows: 0,
                pad_columns: 0,
            }),
    {
        Window::try_new(reach, [1, 1], [0, 0])
    }

    /// A window of `reach` taps that moves one element at a time over an unpadded input.
    pub fn sliding(reach: [u32; 2]) -> (r: Window)
        requires
            reach[0] > 0 && reach[1] > 0,
        ensures
            r@ == (WindowView {
                reach_rows: reach[0] as nat,
                reach_columns: reach[1] as nat,
                stride_rows: 1,
                stride_columns: 1,
                pad_rows: 0,
                pad_columns: 0,
            }),
    {
        Window::new(reach, [1, 1], [0, 0])
    }

    pub fn reach_rows(self) -> (r: u32)
        ensures
            r == self@.reach_rows,
            r > 0,
    {
        proof {
            use_type_invariant(&self);
        }
        self.reach_rows
    }

    pub fn reach_columns(self) -> (r: u32)
        ensures
            r == self@.reach_columns,
            r > 0,
    {
        proof {
            use_type_invariant(&self);
        }
        self.reach_columns
    }

    pub fn stride_rows(self) -> (r: u32)
        ensures
            r == self@.stride_rows,
            r > 0,
    {
        proof {
            use_type_invariant(&self);
        }
        self.stride_rows
    }

    pub fn stride_columns(self) -> (r: u32)
        ensures
            r == self@.stride_columns,
            r > 0,
    {
        proof {
            use_type_invariant(&self);
        }
        self.stride_columns
    }

    pub fn pad_rows(self) -> (r: u32)
        ensures
            r == self@.pad_rows,
    {
        self.pad_rows
    }

    pub fn pad_columns(self) -> (r: u32)
        ensures
            r == self@.pad_columns,
    {
        self.pad_columns
    }
}

} // verus!
