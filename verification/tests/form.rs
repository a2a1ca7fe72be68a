use tissue::markup::{add_input, add_number, add_slider, add_text, beginning, end, generate};
use tissue::Input;

fn sample_inputs() -> Vec<Input> {
    vec![
        Input::Number("234.289".to_string()),
        Input::Text("hello".to_string()),
        Input::Slider {
            min: "0".to_string(),
            max: "10".to_string(),
            step: "1".to_string(),
            initial_value: "5".to_string(),
        },
    ]
}

#[test]
fn generator_determinism() {
    let first = generate(&sample_inputs());
    let second = generate(&sample_inputs());
    assert_eq!(first, second);
}

#[test]
fn index_correspondence() {
    let document = generate(&sample_inputs());
    // Exactly one input-tagged element per descriptor.
    let tagged: usize = document.matches("class=\"form-control input").count();
    assert_eq!(tagged, 3);
    // Each element is addressable by its index, and they appear in input order.
    let first = document.find("id=\"exampleInput0\"").unwrap();
    let second = document.find("id=\"exampleInput1\"").unwrap();
    let third = document.find("id=\"exampleInput2\"").unwrap();
    assert!(first < second);
    assert!(second < third);
    assert_eq!(document.matches("id=\"exampleInput0\"").count(), 1);
    assert_eq!(document.matches("id=\"exampleInput1\"").count(), 1);
    assert_eq!(document.matches("id=\"exampleInput2\"").count(), 1);
}

#[test]
fn field_block_exact() {
    let block = add_input(0, "text", "1.5");
    assert_eq!(
        block,
        "<label for=\"exampleInput0\" class=\"col-sm-2 col-form-label mt-3\"><i>x<sub>0</sub> = \
         </i></label><div class=\"col-sm-10 mt-3\"><input type=\"text\" class=\"form-control \
         input\" id=\"exampleInput0\" name=\"x0\" aria-describedby=\"input6\" \
         placeholder=\"x0\" value=\"1.5\"></div>"
    );
}

#[test]
fn number_and_text_render_as_input_fields() {
    assert_eq!(add_number(1, "2.5"), add_input(1, "text", "2.5"));
    assert_eq!(add_text(1, "abc"), add_input(1, "text", "abc"));
}

#[test]
fn slider_block_carries_bounds() {
    let block = add_slider(2, "5", "10", "0", "1");
    assert!(block.contains("min=\"0\""));
    assert!(block.contains("max=\"10\""));
    assert!(block.contains("step=\"1\""));
    assert!(block.contains("value=\"5\" readonly>"));
    assert!(block.contains("type=\"range\""));
    assert!(block.contains("id=\"exampleInput2\""));
    assert!(block.contains("oninput=\"this.previousElementSibling.value = this.value\""));
}

#[test]
fn document_skeleton() {
    let document = generate(&Vec::new());
    let mut skeleton = beginning();
    skeleton.push_str(&end());
    assert_eq!(document, skeleton);
    assert!(document.contains("id=\"output\""));
    assert!(document.contains("function run_calculation()"));
    assert!(document.contains("ipc.postMessage(numbers.toString())"));
}

#[test]
fn two_digit_indices() {
    let mut inputs: Vec<Input> = Vec::new();
    let mut i: usize = 0;
    while i < 11 {
        inputs.push(Input::Number("1".to_string()));
        i += 1;
    }
    let document = generate(&inputs);
    assert!(document.contains("id=\"exampleInput10\""));
    assert_eq!(document.matches("class=\"form-control input").count(), 11);
}
