use image_diff::color::{ColorModel, Rgb};
use image_diff::custom::Custom;
use image_diff::engine::{LibItem, ProcessWrapper};
use image_diff::options::{CalculationUnit, ColorSpace, DistanceAlgorithm};
use image_diff::raster::RawImage;
use palette::{ColorDifference, IntoColor, Lab, Srgb};

fn to_lab(px: &Rgb) -> [f32; 3] {
    let lab: Lab = Srgb::new(px.r, px.g, px.b).into_format::<f32>().into_color();
    [lab.l, lab.a, lab.b]
}

/// CIEDE2000 in thousandths.
fn ciede2000(a: &[f32; 3], b: &[f32; 3]) -> u32 {
    let d = Lab::new(a[0], a[1], a[2]).get_color_difference(&Lab::new(b[0], b[1], b[2]));
    (d * 1000.0).round() as u32
}

fn centre(colors: &Vec<[f32; 3]>) -> [f32; 3] {
    let n = colors.len() as f32;
    let mut sum = [0.0f32; 3];
    for c in colors {
        for k in 0..3 {
            sum[k] += c[k];
        }
    }
    [sum[0] / n, sum[1] / n, sum[2] / n]
}

fn solid(width: u32, height: u32, px: Rgb) -> RawImage {
    RawImage::from_pixels(width, height, &vec![px; (width * height) as usize]).unwrap()
}

#[test]
fn an_outside_colour_model_drives_every_unit() {
    let red = Rgb { r: 255, g: 0, b: 0 };
    let blue = Rgb { r: 0, g: 0, b: 255 };
    let rose = Rgb { r: 230, g: 40, b: 60 };
    let model = Custom::new(to_lab, ciede2000, centre);
    assert!(!model.is_metric());
    assert_eq!(model.distance(&model.convert(&red), &model.convert(&red)), 0);
    for unit in [CalculationUnit::Average, CalculationUnit::Pixel, CalculationUnit::KMeans] {
        let engine =
            ProcessWrapper::new(4, unit, ColorSpace::CIELAB, DistanceAlgorithm::CIEDE2000)
                .with_clusters(2, true);
        let lib: Vec<LibItem<[f32; 3]>> = engine
            .index(&model, &vec![Some(solid(8, 8, blue)), None, Some(solid(4, 4, red))])
            .into_iter()
            .flatten()
            .collect();
        assert_eq!(lib.len(), 2);
        let target = solid(8, 4, rose);
        let masks = ProcessWrapper::mask(4, 8, 4);
        let choices = engine.fill(&model, &target, &lib, &masks).unwrap();
        assert_eq!(choices, vec![((0, 0, 4, 4), 1), ((4, 0, 4, 4), 1)]);
    }
}
