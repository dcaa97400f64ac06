use vstd::prelude::*;

verus! {

/// The largest window extent along an axis of the desktop: 90% of it,
/// rounded down.
pub open spec fn max_extent(desktop: int) -> int {
    desktop * 9 / 10
}

/// `(iw, ih)` scaled by min(bw / iw, bh / ih), each axis rounded down; the
/// ratio along an axis where the image has no extent is unbounded, so the
/// other axis decides.
pub open spec fn scale_into(iw: int, ih: int, bw: int, bh: int) -> (int, int) {
    if iw == 0 && ih == 0 {
        (0, 0)
    } else if iw == 0 {
        (0, bh)
    } else if ih == 0 {
        (bw, 0)
    } else if bw * ih <= bh * iw {
        (bw, ih * bw / iw)
    } else {
        (iw * bh / ih, bh)
    }
}

/// The window size for an image of `iw` by `ih`: enlarged into the minimum
/// box where it is smaller than it along an axis, else shrunk into 90% of the
/// desktop where it is larger than that along an axis, else its own size.
pub open spec fn fitted_size(iw: int, ih: int, min_w: int, min_h: int, desk_w: int, desk_h: int) -> (
    int,
    int,
) {
    if iw < min_w || ih < min_h {
        scale_into(iw, ih, min_w, min_h)
    } else if iw > max_extent(desk_w) || ih > max_extent(desk_h) {
        scale_into(iw, ih, max_extent(desk_w), max_extent(desk_h))
    } else {
        (iw, ih)
    }
}

/// `(w, h)` keeps the proportions of `(iw, ih)`: one axis fills the box
/// exactly and the other is the exact proportional length rounded down.
pub open spec fn fills_box_in_proportion(w: int, h: int, iw: int, ih: int, bw: int, bh: int) -> bool {
    &&& 0 <= w <= bw
    &&& 0 <= h <= bh
    &&& (w == bw && h * iw <= ih * w < (h + 1) * iw) || (h == bh && w * ih <= iw * h < (w + 1)
        * ih)
}

/// Scaling into a box stays inside the box, fills it along one axis and
/// keeps the image's proportions, up to rounding down the other axis.
pub proof fn lemma_scale_into_fits(iw: int, ih: int, bw: int, bh: int)
    requires
        iw >= 0,
        ih >= 0,
        iw > 0 || ih > 0,
        bw >= 0,
        bh >= 0,
    ensures
        fills_box_in_proportion(scale_into(iw, ih, bw, bh).0, scale_into(iw, ih, bw, bh).1, iw, ih, bw, bh),
{
    if iw == 0 || ih == 0 {
    } else if bw * ih <= bh * iw {
        let h = ih * bw / iw;
        vstd::arithmetic::div_mod::lemma_fundamental_div_mod(ih * bw, iw);
        vstd::arithmetic::div_mod::lemma_mod_bound(ih * bw, iw);
        assert(h * iw <= ih * bw < (h + 1) * iw) by (nonlinear_arith)
            requires
                ih * bw == iw * h + (ih * bw) % iw,
                0 <= (ih * bw) % iw < iw,
        ;
        assert(0 <= h <= bh) by (nonlinear_arith)
            requires
                h * iw <= ih * bw,
                ih * bw <= bh * iw,
                iw > 0,
                ih * bw < (h + 1) * iw,
                ih * bw >= 0,
        ;
    } else {
        let w = iw * bh / ih;
        vstd::arithmetic::div_mod::lemma_fundamental_div_mod(iw * bh, ih);
        vstd::arithmetic::div_mod::lemma_mod_bound(iw * bh, ih);
        assert(w * ih <= iw * bh < (w + 1) * ih) by (nonlinear_arith)
            requires
                iw * bh == ih * w + (iw * bh) % ih,
                0 <= (iw * bh) % ih < ih,
        ;
        assert(0 <= w <= bw) by (nonlinear_arith)
            requires
                w * ih <= iw * bh,
                iw * bh < bw * ih,
                ih > 0,
                iw * bh < (w + 1) * ih,
                iw * bh >= 0,
        ;
    }
}

/// The sizing rule: exactly one of three branches applies. An image smaller
/// than the minimum box along an axis is scaled into that box; else an image
/// larger than 90% of the desktop along an axis is scaled into that 90%; else
/// it keeps its size. A scaled image with some extent ends inside its box,
/// filling it along one axis, in its own proportions up to rounding down.
pub proof fn lemma_fitted_size(iw: int, ih: int, min_w: int, min_h: int, desk_w: int, desk_h: int)
    requires
        iw >= 0,
        ih >= 0,
        min_w >= 0,
        min_h >= 0,
        desk_w >= 0,
        desk_h >= 0,
    ensures
        (iw < min_w || ih < min_h) ==> fitted_size(iw, ih, min_w, min_h, desk_w, desk_h)
            == scale_into(iw, ih, min_w, min_h),
        !(iw < min_w || ih < min_h) && (iw > max_extent(desk_w) || ih > max_extent(desk_h))
            ==> fitted_size(iw, ih, min_w, min_h, desk_w, desk_h) == scale_into(
            iw,
            ih,
            max_extent(desk_w),
            max_extent(desk_h),
        ),
        !(iw < min_w || ih < min_h) && !(iw > max_extent(desk_w) || ih > max_extent(desk_h))
            ==> fitted_size(iw, ih, min_w, min_h, desk_w, desk_h) == (iw, ih),
        (iw > 0 || ih > 0) && (iw < min_w || ih < min_h) ==> fills_box_in_proportion(
            fitted_size(iw, ih, min_w, min_h, desk_w, desk_h).0,
            fitted_size(iw, ih, min_w, min_h, desk_w, desk_h).1,
            iw,
            ih,
            min_w,
            min_h,
        ),
        (iw > 0 || ih > 0) && !(iw < min_w || ih < min_h) && (iw > max_extent(desk_w) || ih
            > max_extent(desk_h)) ==> fills_box_in_proportion(
            fitted_size(iw, ih, min_w, min_h, desk_w, desk_h).0,
            fitted_size(iw, ih, min_w, min_h, desk_w, desk_h).1,
            iw,
            ih,
            max_extent(desk_w),
            max_extent(desk_h),
        ),
{
    if iw > 0 || ih > 0 {
        lemma_scale_into_fits(iw, ih, min_w, min_h);
        assert(max_extent(desk_w) >= 0 && max_extent(desk_h) >= 0);
        lemma_scale_into_fits(iw, ih, max_extent(desk_w), max_extent(desk_h));
    }
}

fn scale_into_box(iw: u32, ih: u32, bw: u32, bh: u32) -> (r: (u32, u32))
    ensures
        r.0 == scale_into(iw as int, ih as int, bw as int, bh as int).0,
        r.1 == scale_into(iw as int, ih as int, bw as int, bh as int).1,
{
    if iw == 0 && ih == 0 {
        return (0, 0);
    } else if iw == 0 {
        return (0, bh);
    } else if ih == 0 {
        return (bw, 0);
    }
    proof {
        lemma_scale_into_fits(iw as int, ih as int, bw as int, bh as int);
        assert((bw as int) * (ih as int) <= u64::MAX) by (nonlinear_arith)
            requires
                bw <= u32::MAX,
                ih <= u32::MAX,
        ;
        assert((bh as int) * (iw as int) <= u64::MAX) by (nonlinear_arith)
            requires
                bh <= u32::MAX,
                iw <= u32::MAX,
        ;
        assert((iw as int) * (bh as int) == (bh as int) * (iw as int)) by (nonlinear_arith);
        assert((ih as int) * (bw as int) == (bw as int) * (ih as int)) by (nonlinear_arith);
    }
    let (iw, ih, bw, bh) = (iw as u64, ih as u64, bw as u64, bh as u64);
    if bw * ih <= bh * iw {
        (bw as u32, (ih * bw / iw) as u32)
    } else {
        ((iw * bh / ih) as u32, bh as u32)
    }
}

/// The window size for an image of `image_width` by `image_height`, given the
/// minimum box and the desktop size (see `fitted_size`).
pub fn fitted_window_size(
    image_width: u32,
    image_height: u32,
    min_size: (u32, u32),
    desktop_size: (u32, u32),
) -> (r: (u32, u32))
    ensures
        r.0 == fitted_size(
            image_width as int,
            image_height as int,
            min_size.0 as int,
            min_size.1 as int,
            desktop_size.0 as int,
            desktop_size.1 as int,
        ).0,
        r.1 == fitted_size(
            image_width as int,
            image_height as int,
            min_size.0 as int,
            min_size.1 as int,
            desktop_size.0 as int,
            desktop_size.1 as int,
        ).1,
{
    let max_width: u32 = (desktop_size.0 as u64 * 9 / 10) as u32;
    let max_height: u32 = (desktop_size.1 as u64 * 9 / 10) as u32;
    if image_width < min_size.0 || image_height < min_size.1 {
        scale_into_box(image_width, image_height, min_size.0, min_size.1)
    } else if image_width > max_width || image_height > max_height {
        scale_into_box(image_width, image_height, max_width, max_height)
    } else {
        (image_width, image_height)
    }
}

} // verus!
