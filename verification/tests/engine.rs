use image_diff::color::{mean_of, squared_distance, ColorModel, Rgb, RgbSquared};
use image_diff::engine::{Formula, LibItem, ProcessWrapper};
use image_diff::kmeans::kmeans;
use image_diff::options::{CalculationUnit, ColorSpace, DistanceAlgorithm};
use image_diff::raster::RawImage;
use image_diff::select::nearest;

const RED: Rgb = Rgb { r: 255, g: 0, b: 0 };
const BLUE: Rgb = Rgb { r: 0, g: 0, b: 255 };

fn solid(width: u32, height: u32, px: Rgb) -> RawImage {
    let pixels = vec![px; (width * height) as usize];
    RawImage::from_pixels(width, height, &pixels).unwrap()
}

fn default_engine(size: u32, unit: CalculationUnit) -> ProcessWrapper {
    ProcessWrapper::new(size, unit, ColorSpace::RGB, DistanceAlgorithm::Euclidean)
}

#[test]
fn nearest_takes_first_of_equal_minima() {
    assert_eq!(nearest(&vec![5, 3, 9, 3]), Some(1));
    assert_eq!(nearest(&vec![7]), Some(0));
    assert_eq!(nearest(&vec![]), None);
}

#[test]
fn squared_distance_exact_value() {
    let a = Rgb { r: 10, g: 20, b: 30 };
    let b = Rgb { r: 13, g: 16, b: 42 };
    assert_eq!(squared_distance(&a, &b), 9 + 16 + 144);
    assert_eq!(squared_distance(&b, &a), 169);
    assert_eq!(squared_distance(&a, &a), 0);
    assert_eq!(squared_distance(&RED, &BLUE), 2 * 255 * 255);
}

#[test]
fn mean_rounds_down_and_empty_is_black() {
    let px = vec![Rgb { r: 1, g: 2, b: 255 }, Rgb { r: 2, g: 2, b: 0 }];
    assert_eq!(mean_of(&px), Rgb { r: 1, g: 2, b: 127 });
    assert_eq!(mean_of(&vec![]), Rgb { r: 0, g: 0, b: 0 });
}

#[test]
fn red_mask_selects_red_library_image() {
    let engine = default_engine(50, CalculationUnit::Average);
    let model = RgbSquared;
    let library = vec![Some(solid(50, 50, BLUE)), Some(solid(50, 50, RED))];
    let lib: Vec<LibItem<Rgb>> = engine.index(&model, &library).into_iter().flatten().collect();
    assert_eq!(lib.len(), 2);
    assert_eq!(lib[1].signature, vec![RED]);
    let target = solid(100, 100, RED);
    let masks = ProcessWrapper::mask(50, target.width(), target.height());
    assert_eq!(masks.len(), 4);
    let choices = engine.fill(&model, &target, &lib, &masks).unwrap();
    for (i, (m, chosen)) in choices.iter().enumerate() {
        assert_eq!(*m, masks[i]);
        assert_eq!(*chosen, 1);
    }
}

#[test]
fn pixel_unit_identical_single_pixel_is_at_distance_zero() {
    let engine = default_engine(1, CalculationUnit::Pixel);
    let model = RgbSquared;
    let px = Rgb { r: 12, g: 200, b: 7 };
    let other = Rgb { r: 12, g: 201, b: 7 };
    let lib: Vec<LibItem<Rgb>> = engine
        .index(&model, &vec![Some(solid(1, 1, other)), Some(solid(1, 1, px))])
        .into_iter()
        .flatten()
        .collect();
    let target = solid(1, 1, px);
    let choice = engine.fill_step(&model, &target, (0, 0, 1, 1), &lib);
    assert_eq!(choice, Some(((0, 0, 1, 1), 1)));
    let sig = model.convert(&target.pixel(0, 0));
    assert_eq!(model.distance(&sig, &lib[1].signature[0]), 0);
}

#[test]
fn index_skips_what_failed_to_decode() {
    let engine = default_engine(4, CalculationUnit::Average);
    let library = vec![Some(solid(8, 6, RED)), None, Some(solid(3, 9, BLUE)), Some(solid(4, 4, RED))];
    let items = engine.index(&RgbSquared, &library);
    assert_eq!(items.len(), 4);
    assert!(items[0].is_some() && items[1].is_none() && items[2].is_some() && items[3].is_some());
    assert_eq!(items.iter().flatten().count(), 3);
    let first = items[0].as_ref().unwrap();
    assert_eq!((first.image.width(), first.image.height()), (4, 4));
    assert_eq!(first.signature, vec![RED]);
}

#[test]
fn fill_reports_an_empty_library() {
    let engine = default_engine(2, CalculationUnit::Average);
    let target = solid(4, 4, RED);
    let lib: Vec<LibItem<Rgb>> = Vec::new();
    assert_eq!(engine.fill_step(&RgbSquared, &target, (0, 0, 2, 2), &lib), None);
    assert_eq!(engine.fill(&RgbSquared, &target, &lib, &vec![(0, 0, 2, 2)]), None);
}

#[test]
fn formula_follows_space_and_algorithm() {
    let f = |s, a| ProcessWrapper::new(1, CalculationUnit::Average, s, a).formula();
    assert_eq!(f(ColorSpace::RGB, DistanceAlgorithm::Euclidean), Formula::Squared);
    assert_eq!(f(ColorSpace::CIELAB, DistanceAlgorithm::Euclidean), Formula::Squared);
    assert_eq!(f(ColorSpace::HSV, DistanceAlgorithm::Euclidean), Formula::HueWeighted);
    assert_eq!(f(ColorSpace::HSV, DistanceAlgorithm::CIEDE2000), Formula::Ciede2000);
    assert_eq!(f(ColorSpace::RGB, DistanceAlgorithm::CIEDE2000), Formula::Ciede2000);
}

#[test]
fn only_rgb_under_euclid_is_exact() {
    let exact = |s, a| ProcessWrapper::new(1, CalculationUnit::Pixel, s, a).exact_model().is_some();
    assert!(exact(ColorSpace::RGB, DistanceAlgorithm::Euclidean));
    assert!(!exact(ColorSpace::RGB, DistanceAlgorithm::CIEDE2000));
    assert!(!exact(ColorSpace::HSV, DistanceAlgorithm::Euclidean));
    assert!(!exact(ColorSpace::CIELAB, DistanceAlgorithm::Euclidean));
}

#[test]
fn kmeans_two_clusters() {
    let a = Rgb { r: 0, g: 0, b: 0 };
    let b = Rgb { r: 2, g: 0, b: 0 };
    let c = Rgb { r: 200, g: 0, b: 0 };
    let d = Rgb { r: 204, g: 0, b: 0 };
    let out = kmeans(&RgbSquared, &vec![a, b, c, d], 2, false);
    assert_eq!(out.centres, vec![Rgb { r: 1, g: 0, b: 0 }, Rgb { r: 202, g: 0, b: 0 }]);
    assert_eq!(out.weights, vec![2, 2]);
    assert_eq!(out.labels, vec![0, 0, 1, 1]);
    let again = kmeans(&RgbSquared, &vec![a, b, c, d], 2, false);
    assert_eq!(again.centres, out.centres);
    assert_eq!(again.labels, out.labels);
}

#[test]
fn kmeans_caps_clusters_at_sample_count() {
    let a = Rgb { r: 9, g: 9, b: 9 };
    let out = kmeans(&RgbSquared, &vec![a, a], 5, false);
    assert_eq!(out.centres, vec![a, a]);
    assert_eq!(out.weights, vec![2, 0]);
    let none = kmeans(&RgbSquared, &vec![], 3, true);
    assert!(none.centres.is_empty() && none.weights.is_empty() && none.labels.is_empty());
}

#[test]
fn acceleration_changes_nothing() {
    let mut samples = Vec::new();
    let mut v: u32 = 7;
    for _ in 0..400 {
        v = v.wrapping_mul(1664525).wrapping_add(1013904223);
        samples.push(Rgb { r: (v >> 24) as u8, g: (v >> 16) as u8, b: (v >> 8) as u8 });
    }
    for k in 1..=5 {
        let plain = kmeans(&RgbSquared, &samples, k, false);
        let fast = kmeans(&RgbSquared, &samples, k, true);
        assert_eq!(plain.centres, fast.centres);
        assert_eq!(plain.labels, fast.labels);
        assert_eq!(plain.weights, fast.weights);
        assert_eq!(plain.centres.len(), k);
        assert_eq!(plain.weights.iter().sum::<usize>(), samples.len());
    }
}

#[test]
fn kmeans_unit_picks_the_image_with_the_nearer_clusters() {
    let engine = default_engine(2, CalculationUnit::KMeans).with_clusters(2, true);
    assert_eq!((engine.clusters(), engine.hamerly(), engine.size()), (2, true, 2));
    let dark = Rgb { r: 10, g: 10, b: 10 };
    let light = Rgb { r: 240, g: 240, b: 240 };
    let grey = Rgb { r: 128, g: 128, b: 128 };
    let chequered = RawImage::from_pixels(2, 2, &vec![dark, light, light, dark]).unwrap();
    let flat = solid(2, 2, grey);
    let lib: Vec<LibItem<Rgb>> =
        engine.index(&RgbSquared, &vec![Some(flat), Some(chequered)]).into_iter().flatten().collect();
    assert_eq!(lib[0].signature, vec![grey, grey]);
    assert_eq!(lib[1].signature, vec![dark, light]);
    let target = RawImage::from_pixels(2, 2, &vec![light, dark, dark, light]).unwrap();
    assert_eq!(engine.fill_step(&RgbSquared, &target, (0, 0, 2, 2), &lib), Some(((0, 0, 2, 2), 1)));
}

#[test]
fn pixel_unit_compares_a_clipped_region_with_the_corner_of_the_tile() {
    let engine = default_engine(2, CalculationUnit::Pixel);
    let a = Rgb { r: 1, g: 1, b: 1 };
    let b = Rgb { r: 9, g: 9, b: 9 };
    let first = RawImage::from_pixels(2, 2, &vec![b, a, a, a]).unwrap();
    let second = RawImage::from_pixels(2, 2, &vec![a, b, b, b]).unwrap();
    let lib: Vec<LibItem<Rgb>> =
        engine.index(&RgbSquared, &vec![Some(first), Some(second)]).into_iter().flatten().collect();
    let target = solid(3, 3, a);
    assert_eq!(engine.fill_step(&RgbSquared, &target, (2, 2, 1, 1), &lib), Some(((2, 2, 1, 1), 1)));
    assert_eq!(engine.fill_step(&RgbSquared, &target, (0, 0, 2, 2), &lib), Some(((0, 0, 2, 2), 0)));
}

#[test]
fn equal_distances_go_to_the_first_item() {
    let engine = default_engine(1, CalculationUnit::Average);
    let lib: Vec<LibItem<Rgb>> = engine
        .index(&RgbSquared, &vec![Some(solid(1, 1, BLUE)), Some(solid(1, 1, RED)), Some(solid(1, 1, RED))])
        .into_iter()
        .flatten()
        .collect();
    let target = solid(1, 1, RED);
    assert_eq!(engine.fill_step(&RgbSquared, &target, (0, 0, 1, 1), &lib), Some(((0, 0, 1, 1), 1)));
}
