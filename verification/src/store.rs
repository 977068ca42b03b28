use vstd::prelude::*;

use crate::histogram::{GrayHistogram, count_value, gray_histogram, sum_first};
use crate::plane::PlaneView;
use crate::rgb::{RgbImage, RgbView, gray_view};

verus! {

/// A loaded image with the name shown for it and whether it is in colour.
pub struct ImageContainer {
    pub img: RgbImage,
    pub label: String,
    pub color: bool,
}

/// Why an operation on the store did not run.
#[derive(Clone, Copy, PartialEq, Eq, Debug)]
pub enum ActionError {
    /// The selection does not name a loaded image; holds the selection.
    NoImageAt(i32),
    InvalidCloseIndex,
    ThresholdNeedsGray,
    HistogramNeedsGray,
    EqualizeNeedsGray,
    SkeletonNeedsGray,
    StretchNeedsGray,
    StretchEmptyRange,
    HsvNeedsColor,
    LabNeedsColor,
    SplitNeedsColor,
    TooFewLevels,
    MedianKernelSize,
    UnknownFilterType,
    InvalidSecondIndex,
    UnknownOperation,
    SizeMismatch,
}

/// The loaded images, the selected one (an index, -1 for none) and the
/// histogram last computed of a gray image.
pub struct ImageStore {
    pub loaded_images: Vec<ImageContainer>,
    pub selected_image: i32,
    pub histogram: Option<GrayHistogram>,
}

/// `h` is the histogram of the plane `p`.
pub open spec fn describes(h: GrayHistogram, p: PlaneView) -> bool {
    &&& h.counts@.len() == 256
    &&& forall|v: int| 0 <= v < 256 ==> #[trigger] h.counts@[v] == count_value(p.data, v)
    &&& forall|v: int| 0 <= v < 256 ==> h.counts@[v] <= h.max_count
    &&& exists|v: int| 0 <= v < 256 && h.counts@[v] == h.max_count
    &&& h.total == p.data.len()
    &&& sum_first(h.counts@, 256) == h.total
}

/// `new` is `old` with the image at `idx` replaced by `img`, its label kept
/// and its colour flag set to `color`.
pub open spec fn replaced_at(
    old: Seq<ImageContainer>,
    new: Seq<ImageContainer>,
    idx: int,
    img: RgbView,
    color: bool,
) -> bool {
    &&& new.len() == old.len()
    &&& 0 <= idx < old.len()
    &&& forall|j: int| 0 <= j < old.len() && j != idx ==> new[j] == old[j]
    &&& new[idx].img@ == img
    &&& new[idx].label == old[idx].label
    &&& new[idx].color == color
}

/// Selection after closing image `index`, leaving `remaining` images: -1 when
/// none is left; one back (but not below 0) when it was at or after the closed
/// image (`index` compared as an `i32`); unchanged otherwise.
pub open spec fn selection_after_close(remaining: nat, selected: i32, index: usize) -> i32 {
    if remaining == 0 {
        -1i32
    } else if selected >= index as i32 {
        if selected - 1 > 0 {
            (selected - 1) as i32
        } else {
            0i32
        }
    } else {
        selected
    }
}

impl ImageStore {
    /// Index of the selected image, if the selection names a loaded one.
    pub open spec fn current_index(self) -> Option<int> {
        if 0 <= self.selected_image < self.loaded_images@.len() {
            Some(self.selected_image as int)
        } else {
            None
        }
    }

    /// The selected image.
    pub open spec fn current(self) -> ImageContainer
        recommends
            self.current_index() is Some,
    {
        self.loaded_images@[self.selected_image as int]
    }

    /// A store with no image and no selection.
    pub fn new() -> (s: ImageStore)
        ensures
            s.loaded_images@.len() == 0,
            s.selected_image == -1,
            s.histogram is None,
    {
        ImageStore { loaded_images: Vec::new(), selected_image: -1, histogram: None }
    }

    /// The selected image and its index; an error naming the selection when it
    /// is not the index of a loaded image.
    pub fn get_current_image(&self) -> (r: Result<(usize, &ImageContainer), ActionError>)
        ensures
            match self.current_index() {
                Some(i) => (r matches Ok((idx, c)) && idx == i && *c == self.loaded_images@[i]),
                None => r == Err::<(usize, &ImageContainer), ActionError>(
                    ActionError::NoImageAt(self.selected_image),
                ),
            },
    {
        let sel = self.selected_image;
        if sel >= 0 && (sel as usize) < self.loaded_images.len() {
            let idx = sel as usize;
            Ok((idx, &self.loaded_images[idx]))
        } else {
            Err(ActionError::NoImageAt(sel))
        }
    }

    /// Appends an image.
    pub fn push_image(&mut self, c: ImageContainer)
        ensures
            final(self).loaded_images@ == old(self).loaded_images@.push(c),
            final(self).selected_image == old(self).selected_image,
            final(self).histogram == old(self).histogram,
    {
        self.loaded_images.push(c);
    }

    /// Selects the last image (its index taken as an `i32`).
    pub fn select_last(&mut self)
        requires
            old(self).loaded_images@.len() > 0,
        ensures
            final(self).selected_image == (old(self).loaded_images@.len() - 1) as i32,
            final(self).loaded_images@ == old(self).loaded_images@,
            final(self).histogram == old(self).histogram,
    {
        let last = self.loaded_images.len() - 1;
        self.selected_image = last as i32;
    }

    /// Appends the loaded images and selects the last one.
    pub fn open_file(&mut self, loaded: Vec<ImageContainer>)
        requires
            old(self).loaded_images@.len() + loaded@.len() > 0,
        ensures
            final(self).loaded_images@ == old(self).loaded_images@ + loaded@,
            final(self).selected_image == (final(self).loaded_images@.len() - 1) as i32,
            final(self).histogram == old(self).histogram,
    {
        let mut loaded = loaded;
        self.loaded_images.append(&mut loaded);
        self.select_last();
    }

    /// Closes the image at `index`. When the store is left empty the selection
    /// becomes -1; when the selection was at or after the closed image it moves
    /// one back, but not below 0. An index past the images is refused. When
    /// moving back would take the selection below `i32::MIN` (selection
    /// `i32::MIN` and an index that is `i32::MIN` as an `i32`) the call is not
    /// allowed.
    pub fn close_file(&mut self, index: usize) -> (r: Result<(), ActionError>)
        requires
            index < old(self).loaded_images@.len() && old(self).loaded_images@.len() > 1 ==> !(
            old(self).selected_image == i32::MIN && index as i32 == i32::MIN),
        ensures
            index >= old(self).loaded_images@.len() ==> r == Err::<(), ActionError>(ActionError::InvalidCloseIndex)
                && *final(self) == *old(self),
            index < old(self).loaded_images@.len() ==> {
                &&& r is Ok
                &&& final(self).loaded_images@ == old(self).loaded_images@.remove(index as int)
                &&& final(self).histogram == old(self).histogram
                &&& final(self).selected_image == selection_after_close(
                    final(self).loaded_images@.len(),
                    old(self).selected_image,
                    index,
                )
            },
    {
        if index >= self.loaded_images.len() {
            return Err(ActionError::InvalidCloseIndex);
        }
        self.loaded_images.remove(index);
        let current_selected = self.selected_image;
        if self.loaded_images.len() == 0 {
            self.selected_image = -1;
        } else if current_selected >= index as i32 {
            let lowered = current_selected - 1;
            self.selected_image = if lowered > 0 {
                lowered
            } else {
                0
            };
        }
        Ok(())
    }

    /// Puts `img` in place of the image at `idx` and sets its colour flag,
    /// keeping its label.
    pub fn replace_image(&mut self, idx: usize, img: RgbImage, color: bool)
        requires
            idx < old(self).loaded_images@.len(),
        ensures
            replaced_at(old(self).loaded_images@, final(self).loaded_images@, idx as int, img@, color),
            final(self).selected_image == old(self).selected_image,
            final(self).histogram == old(self).histogram,
    {
        let label = self.loaded_images[idx].label.clone();
        self.loaded_images.set(idx, ImageContainer { img, label, color });
    }

    /// Recomputes the histogram of the selected image, which must be gray; the
    /// pixel values are the gray (luma) values of the image.
    pub fn calculate_gray_histogram(&mut self) -> (r: Result<(), ActionError>)
        ensures
            final(self).loaded_images@ == old(self).loaded_images@,
            final(self).selected_image == old(self).selected_image,
            match old(self).current_index() {
                None => r == Err::<(), ActionError>(ActionError::NoImageAt(old(self).selected_image))
                    && *final(self) == *old(self),
                Some(i) => if old(self).loaded_images@[i].color {
                    r == Err::<(), ActionError>(ActionError::HistogramNeedsGray)
                        && *final(self) == *old(self)
                } else {
                    r is Ok && (final(self).histogram matches Some(h) && describes(
                        h,
                        gray_view(old(self).loaded_images@[i].img@),
                    ))
                },
            },
    {
        let h = match self.get_current_image() {
            Err(e) => {
                return Err(e);
            },
            Ok((_, c)) => {
                if c.color {
                    return Err(ActionError::HistogramNeedsGray);
                }
                let gray = c.img.to_gray();
                gray_histogram(&gray)
            },
        };
        self.histogram = Some(h);
        Ok(())
    }
}

} // verus!
