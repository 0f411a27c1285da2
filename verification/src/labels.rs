//! The words under which the options are offered to the user.

use vstd::prelude::*;
use crate::options::{CalculationUnit, Filter};

verus! {

/// The text of the step in which the method is chosen, in one language.
pub struct I18n {
    pub choose_method: &'static str,
    pub calc_unit: &'static str,
    pub color_space: &'static str,
    pub dist_algo: &'static str,
    pub sampling: &'static str,
    pub configuration: &'static str,
    pub size: &'static str,
    pub average: &'static str,
    pub pixel: &'static str,
    pub k_means: &'static str,
    pub nearest: &'static str,
    pub triangle: &'static str,
    pub catmull_rom: &'static str,
    pub gaussian: &'static str,
    pub lanczos3: &'static str,
}

/// The word for a calculation unit.
pub open spec fn cu_word(item: CalculationUnit, words: I18n) -> &'static str {
    match item {
        CalculationUnit::Average => words.average,
        CalculationUnit::Pixel => words.pixel,
        CalculationUnit::KMeans => words.k_means,
    }
}

/// The word for a resampling filter.
pub open spec fn fl_word(item: Filter, words: I18n) -> &'static str {
    match item {
        Filter::Nearest => words.nearest,
        Filter::Triangle => words.triangle,
        Filter::CatmullRom => words.catmull_rom,
        Filter::Gaussian => words.gaussian,
        Filter::Lanczos3 => words.lanczos3,
    }
}

/// Picks the label of a calculation unit.
pub fn cu_label(item: &CalculationUnit, words: &I18n) -> (label: &'static str)
    ensures
        label == cu_word(*item, *words),
{
    match item {
        CalculationUnit::Average => words.average,
        CalculationUnit::Pixel => words.pixel,
        CalculationUnit::KMeans => words.k_means,
    }
}

/// Picks the label of a resampling filter.
pub fn fl_label(item: &Filter, words: &I18n) -> (label: &'static str)
    ensures
        label == fl_word(*item, *words),
{
    match item {
        Filter::Nearest => words.nearest,
        Filter::Triangle => words.triangle,
        Filter::CatmullRom => words.catmull_rom,
        Filter::Gaussian => words.gaussian,
        Filter::Lanczos3 => words.lanczos3,
    }
}

} // verus!
