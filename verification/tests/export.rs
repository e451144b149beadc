use dessin::export::{ExportStep, Exporter, Shape};

type Drawing = Shape<u8, char, u32>;

#[test]
fn export_steps_of_nested_drawing() {
    // [ style 'a' ( [1, 2] placed by 5 ), 3 ] placed by 9
    let drawing: Drawing = Shape::Group {
        local_transform: 9,
        shapes: vec![
            Shape::Style {
                style: 'a',
                shape: Box::new(Shape::Group { local_transform: 5, shapes: vec![Shape::Leaf(1), Shape::Leaf(2)] }),
            },
            Shape::Leaf(3),
        ],
    };
    let steps = drawing.export_steps();
    assert_eq!(
        steps,
        vec![
            ExportStep::StartStyle { style: &'a', transforms: vec![9] },
            ExportStep::Export { leaf: &1, transforms: vec![9, 5] },
            ExportStep::Export { leaf: &2, transforms: vec![9, 5] },
            ExportStep::EndStyle,
            ExportStep::Export { leaf: &3, transforms: vec![9] },
        ]
    );
}

#[test]
fn export_steps_of_single_leaf() {
    let drawing: Drawing = Shape::Leaf(7);
    assert_eq!(drawing.export_steps(), vec![ExportStep::Export { leaf: &7, transforms: vec![] }]);
}

#[test]
fn export_steps_of_empty_group() {
    let drawing: Drawing = Shape::Group { local_transform: 1, shapes: vec![] };
    assert!(drawing.export_steps().is_empty());
}

#[test]
fn nested_styles_close_in_reverse_order() {
    let drawing: Drawing = Shape::Style {
        style: 'x',
        shape: Box::new(Shape::Style { style: 'y', shape: Box::new(Shape::Leaf(4)) }),
    };
    assert_eq!(
        drawing.export_steps(),
        vec![
            ExportStep::StartStyle { style: &'x', transforms: vec![] },
            ExportStep::StartStyle { style: &'y', transforms: vec![] },
            ExportStep::Export { leaf: &4, transforms: vec![] },
            ExportStep::EndStyle,
            ExportStep::EndStyle,
        ]
    );
}

#[test]
fn default_drawing_is_an_empty_group() {
    let drawing: Drawing = Shape::default();
    assert_eq!(drawing, Shape::Group { local_transform: 0, shapes: vec![] });
    assert!(drawing.export_steps().is_empty());
}

/// Records the calls it receives as text; fails on the leaf `fail_on`.
struct Recorder {
    calls: Vec<String>,
    fail_on: Option<u32>,
}

impl Exporter<u8, char, u32> for Recorder {
    type Error = u32;

    fn start_style(&mut self, style: &char, transforms: &Vec<u8>) -> Result<(), u32> {
        self.calls.push(format!("start {} {:?}", style, transforms));
        Ok(())
    }

    fn end_style(&mut self) -> Result<(), u32> {
        self.calls.push("end".to_string());
        Ok(())
    }

    fn export(&mut self, leaf: &u32, transforms: &Vec<u8>) -> Result<(), u32> {
        self.calls.push(format!("leaf {} {:?}", leaf, transforms));
        if self.fail_on == Some(*leaf) {
            Err(*leaf)
        } else {
            Ok(())
        }
    }
}

fn styled_drawing() -> Drawing {
    Shape::Group {
        local_transform: 9,
        shapes: vec![
            Shape::Style { style: 'a', shape: Box::new(Shape::Group { local_transform: 5, shapes: vec![Shape::Leaf(1), Shape::Leaf(2)] }) },
            Shape::Leaf(3),
        ],
    }
}

#[test]
fn write_into_exporter_makes_every_call() {
    let mut rec = Recorder { calls: vec![], fail_on: None };
    assert_eq!(styled_drawing().write_into_exporter(&mut rec), Ok(()));
    assert_eq!(rec.calls, vec!["start a [9]", "leaf 1 [9, 5]", "leaf 2 [9, 5]", "end", "leaf 3 [9]"]);
}

#[test]
fn write_into_exporter_stops_at_first_error() {
    let mut rec = Recorder { calls: vec![], fail_on: Some(1) };
    assert_eq!(styled_drawing().write_into_exporter(&mut rec), Err(1));
    assert_eq!(rec.calls, vec!["start a [9]", "leaf 1 [9, 5]"]);
}
