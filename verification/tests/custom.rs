use image_diff::color::{ColorModel, Rgb};
use image_diff::custom::Custom;
use image_diff::kmeans::kmeans;

fn grey(px: &Rgb) -> u32 {
    (px.r as u32 + px.g as u32 + px.b as u32) / 3
}

fn apart(a: &u32, b: &u32) -> u32 {
    a.abs_diff(*b)
}

fn middle(levels: &Vec<u32>) -> u32 {
    levels.iter().sum::<u32>() / levels.len() as u32
}

#[test]
fn a_model_does_what_its_functions_do() {
    let model = Custom::new(grey, apart, middle);
    let px = Rgb { r: 10, g: 20, b: 60 };
    assert_eq!(model.convert(&px), 30);
    assert_eq!(model.distance(&30, &12), 18);
    assert_eq!(model.mean(&vec![1, 2, 9]), 4);
    assert!(!model.is_metric());
}

#[test]
fn clustering_under_a_model_of_functions() {
    let model = Custom::new(grey, apart, middle);
    let plain = kmeans(&model, &vec![1, 100, 3, 104, 5], 2, false);
    assert_eq!(plain.centres, vec![3, 102]);
    assert_eq!(plain.labels, vec![0, 1, 0, 1, 0]);
    assert_eq!(plain.weights, vec![3, 2]);
    let asked = kmeans(&model, &vec![1, 100, 3, 104, 5], 2, true);
    assert_eq!(asked.centres, plain.centres);
    assert_eq!(asked.labels, plain.labels);
}
