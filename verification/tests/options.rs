use image_diff::labels::{cu_label, fl_label, I18n};
use image_diff::options::{CalculationUnit, ColorSpace, DistanceAlgorithm, Filter};

fn english() -> I18n {
    I18n {
        choose_method: "Choose method",
        calc_unit: "Calculation unit",
        color_space: "Color space",
        dist_algo: "Distance algorithm",
        sampling: "Sampling",
        configuration: "Configuration",
        size: "Size",
        average: "Average",
        pixel: "Pixel",
        k_means: "K-means",
        nearest: "Nearest",
        triangle: "Triangle",
        catmull_rom: "Catmull-Rom",
        gaussian: "Gaussian",
        lanczos3: "Lanczos3",
    }
}

#[test]
fn defaults() {
    assert_eq!(CalculationUnit::default(), CalculationUnit::Average);
    assert_eq!(ColorSpace::default(), ColorSpace::RGB);
    assert_eq!(DistanceAlgorithm::default(), DistanceAlgorithm::Euclidean);
}

#[test]
fn names_of_spaces_and_algorithms() {
    assert_eq!(String::from(ColorSpace::RGB), "RGB");
    assert_eq!(String::from(ColorSpace::HSV), "HSV");
    assert_eq!(String::from(ColorSpace::CIELAB), "CIE L*a*b*");
    assert_eq!(String::from(DistanceAlgorithm::Euclidean), "Euclidean");
    assert_eq!(String::from(DistanceAlgorithm::CIEDE2000), "CIEDE2000");
}

#[test]
fn labels_of_units_and_filters() {
    let words = english();
    assert_eq!(cu_label(&CalculationUnit::Average, &words), "Average");
    assert_eq!(cu_label(&CalculationUnit::Pixel, &words), "Pixel");
    assert_eq!(cu_label(&CalculationUnit::KMeans, &words), "K-means");
    assert_eq!(fl_label(&Filter::Nearest, &words), "Nearest");
    assert_eq!(fl_label(&Filter::Triangle, &words), "Triangle");
    assert_eq!(fl_label(&Filter::CatmullRom, &words), "Catmull-Rom");
    assert_eq!(fl_label(&Filter::Gaussian, &words), "Gaussian");
    assert_eq!(fl_label(&Filter::Lanczos3, &words), "Lanczos3");
}
