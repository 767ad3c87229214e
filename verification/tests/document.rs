use inkpdf::document::{
    annotations_equal, apply_annotation_change, color_equal, contains_id, f64_bits_eq, kinds_equal, page_equal,
    pages_equal, runs_equal, size_or_a4, style_equal, Annotation, AnnotationChange, AnnotationKind, Color, Document,
    Page, PageKind, PagePattern, PdfSource, ShapeAnnotation, ShapeKind, StrokeAnnotation, TextAnnotation,
    TextRun, TextStyle, A4_HEIGHT, A4_WIDTH, DEFAULT_PATTERN_SPACING,
};

fn bits(x: f64) -> u64 {
    x.to_bits()
}

fn stroke(id: u128) -> Annotation {
    Annotation {
        id,
        kind: AnnotationKind::Stroke(StrokeAnnotation {
            points: vec![(bits(1.0), bits(2.0)), (bits(3.0), bits(4.0))],
            color: Color::black(),
            width: bits(3.0),
        }),
    }
}

fn shape(id: u128) -> Annotation {
    Annotation {
        id,
        kind: AnnotationKind::Shape(ShapeAnnotation {
            shape: ShapeKind::Rectangle,
            x0: bits(0.0),
            y0: bits(0.0),
            x1: bits(10.0),
            y1: bits(10.0),
            color: Color::black(),
            width: bits(3.0),
        }),
    }
}

fn text(id: u128, content: &str) -> Annotation {
    Annotation {
        id,
        kind: AnnotationKind::Text(TextAnnotation {
            x: bits(5.0),
            y: bits(5.0),
            size: bits(16.0),
            runs: vec![TextRun { text: content.to_string(), style: TextStyle::default() }],
        }),
    }
}

fn pdf_page(i: usize, w: f64, h: f64) -> Page {
    Page { kind: PageKind::Pdf { page_index: i }, width: bits(w), height: bits(h), annotations: vec![] }
}

#[test]
fn insert_blank_page_adds_page_at_index() {
    let mut doc = Document::new();
    doc.insert_blank_page(0, bits(595.0), bits(842.0), Color::white(), PagePattern::Plain, DEFAULT_PATTERN_SPACING);
    doc.insert_blank_page(1, bits(200.0), bits(300.0), Color::white(), PagePattern::Plain, DEFAULT_PATTERN_SPACING);

    assert_eq!(doc.pages.len(), 2);
    assert_eq!(f64::from_bits(doc.pages[1].width), 200.0);
    assert!(matches!(doc.pages[1].kind, PageKind::Blank { .. }));
    // Out-of-range index is clamped to the end.
    doc.insert_blank_page(999, bits(100.0), bits(100.0), Color::white(), PagePattern::Plain, DEFAULT_PATTERN_SPACING);
    assert_eq!(doc.pages.len(), 3);
    assert_eq!(f64::from_bits(doc.pages[2].width), 100.0);
}

#[test]
fn a4_constants_are_the_a4_sizes() {
    assert_eq!(f64::from_bits(A4_WIDTH), 595.0);
    assert_eq!(f64::from_bits(A4_HEIGHT), 842.0);
    assert_eq!(f64::from_bits(DEFAULT_PATTERN_SPACING), 20.0);
    assert_eq!(f64::from_bits(Color::white().r), 1.0);
    assert_eq!(f64::from_bits(Color::black().a), 1.0);
    assert_eq!(Color::black().r, 0);
}

#[test]
fn default_document_is_empty() {
    let doc = Document::default();
    assert!(doc.pages.is_empty());
    assert!(doc.source.is_none());
}

#[test]
fn remove_page_only_in_range() {
    let mut doc = Document::new();
    doc.insert_blank_page(0, A4_WIDTH, A4_HEIGHT, Color::white(), PagePattern::Grid, DEFAULT_PATTERN_SPACING);
    assert!(!doc.remove_page(1));
    assert_eq!(doc.pages.len(), 1);
    assert!(doc.remove_page(0));
    assert!(doc.pages.is_empty());
}

#[test]
fn page_queries_report_size_and_kind() {
    let mut doc = Document { source: None, pages: vec![pdf_page(0, 300.0, 400.0)] };
    doc.insert_blank_page(1, A4_WIDTH, A4_HEIGHT, Color::white(), PagePattern::Dotted, DEFAULT_PATTERN_SPACING);
    assert_eq!(doc.page_size(0), Some((bits(300.0), bits(400.0))));
    assert_eq!(doc.page_size(5), None);
    assert!(!doc.page_is_blank(0));
    assert!(doc.page_is_blank(1));
    assert!(!doc.page_is_blank(9));
}

#[test]
fn nearest_pdf_page_size_looks_back_then_forward_then_a4() {
    let blank = |doc: &mut Document, at: usize| {
        doc.insert_blank_page(at, bits(100.0), bits(100.0), Color::white(), PagePattern::Plain, DEFAULT_PATTERN_SPACING)
    };
    let mut doc = Document { source: None, pages: vec![pdf_page(0, 300.0, 400.0), pdf_page(1, 500.0, 600.0)] };
    blank(&mut doc, 1); // between the two pdf pages
    blank(&mut doc, 0); // before all of them
    // pages: blank, pdf(300x400), blank, pdf(500x600)
    assert_eq!(doc.nearest_pdf_page_size(2), (bits(300.0), bits(400.0)));
    assert_eq!(doc.nearest_pdf_page_size(0), (bits(300.0), bits(400.0)));
    // The page itself does not count, even when it is a PDF page.
    assert_eq!(doc.nearest_pdf_page_size(3), (bits(300.0), bits(400.0)));
    let mut only_blank = Document::new();
    blank(&mut only_blank, 0);
    assert_eq!(only_blank.nearest_pdf_page_size(0), (A4_WIDTH, A4_HEIGHT));
}

#[test]
fn blank_style_changes_only_blank_pages() {
    let mut doc = Document { source: None, pages: vec![pdf_page(0, 300.0, 400.0)] };
    doc.insert_blank_page(1, A4_WIDTH, A4_HEIGHT, Color::white(), PagePattern::Plain, DEFAULT_PATTERN_SPACING);
    assert!(!doc.set_blank_style(0, PagePattern::Grid, bits(10.0)));
    assert!(doc.set_blank_style(1, PagePattern::Grid, bits(10.0)));
    assert_eq!(
        doc.pages[1].kind,
        PageKind::Blank { color: Color::white(), pattern: PagePattern::Grid, pattern_spacing: bits(10.0) }
    );
    doc.insert_blank_page(2, A4_WIDTH, A4_HEIGHT, Color::white(), PagePattern::Plain, DEFAULT_PATTERN_SPACING);
    doc.apply_blank_style_to_all(PagePattern::Lined, bits(25.0));
    assert_eq!(doc.pages[0].kind, PageKind::Pdf { page_index: 0 });
    for i in 1..3 {
        assert_eq!(
            doc.pages[i].kind,
            PageKind::Blank { color: Color::white(), pattern: PagePattern::Lined, pattern_spacing: bits(25.0) }
        );
    }
}

#[test]
fn set_page_size_keeps_annotations() {
    let mut doc = Document::new();
    doc.insert_blank_page(0, A4_WIDTH, A4_HEIGHT, Color::white(), PagePattern::Plain, DEFAULT_PATTERN_SPACING);
    assert!(doc.push_annotation(0, stroke(1)));
    assert!(doc.set_page_size(0, bits(100.0), bits(50.0)));
    assert_eq!((doc.pages[0].width, doc.pages[0].height), (bits(100.0), bits(50.0)));
    assert_eq!(doc.pages[0].annotations.len(), 1);
    assert!(!doc.set_page_size(3, bits(1.0), bits(1.0)));
}

#[test]
fn annotations_push_take_insert_and_remove() {
    let mut doc = Document::new();
    doc.insert_blank_page(0, A4_WIDTH, A4_HEIGHT, Color::white(), PagePattern::Plain, DEFAULT_PATTERN_SPACING);
    assert!(!doc.push_annotation(1, stroke(9)));
    assert!(doc.push_annotation(0, stroke(1)));
    assert!(doc.extend_annotations(0, vec![shape(2), text(3, "hi")]));
    assert_eq!(doc.annotation_id(0, 1), Some(2));
    assert_eq!(doc.annotation_id(0, 7), None);

    let taken = doc.take_annotation(0, 0).unwrap();
    assert_eq!(taken.id, 1);
    assert_eq!(doc.pages[0].annotations.len(), 2);
    assert!(doc.insert_annotation(0, 5, taken)); // past the end: appended
    assert_eq!(doc.annotation_id(0, 2), Some(1));

    assert!(doc.remove_annotations(0, &[1, 3]));
    assert_eq!(doc.pages[0].annotations.len(), 1);
    assert_eq!(doc.pages[0].annotations[0].id, 2);
    assert!(!doc.remove_annotations(4, &[2]));
}

#[test]
fn lift_annotations_takes_the_group_in_order() {
    let mut doc = Document::new();
    doc.insert_blank_page(0, A4_WIDTH, A4_HEIGHT, Color::white(), PagePattern::Plain, DEFAULT_PATTERN_SPACING);
    doc.extend_annotations(0, vec![stroke(1), shape(2), stroke(3), text(4, "t")]);
    let lifted = doc.lift_annotations(0, &[3, 1]);
    let ids: Vec<u128> = lifted.iter().map(|a| a.id).collect();
    assert_eq!(ids, vec![1, 3]);
    let left: Vec<u128> = doc.pages[0].annotations.iter().map(|a| a.id).collect();
    assert_eq!(left, vec![2, 4]);
    assert!(doc.lift_annotations(7, &[2]).is_empty());
}

#[test]
fn restyle_changes_matching_kinds_only() {
    let mut doc = Document::new();
    doc.insert_blank_page(0, A4_WIDTH, A4_HEIGHT, Color::white(), PagePattern::Plain, DEFAULT_PATTERN_SPACING);
    doc.extend_annotations(0, vec![stroke(1), shape(2), text(3, "t")]);
    let red = Color { r: bits(1.0), g: 0, b: 0, a: bits(1.0) };
    assert!(doc.restyle_annotations(0, &[1, 2, 3], &AnnotationChange::Color(red)));
    match &doc.pages[0].annotations[0].kind {
        AnnotationKind::Stroke(s) => assert_eq!(s.color, red),
        _ => panic!("stroke expected"),
    }
    match &doc.pages[0].annotations[1].kind {
        AnnotationKind::Shape(s) => assert_eq!(s.color, red),
        _ => panic!("shape expected"),
    }
    // Text has no single color to change.
    assert!(!doc.restyle_annotations(0, &[3], &AnnotationChange::Width(bits(9.0))));
    assert!(doc.restyle_annotations(0, &[2], &AnnotationChange::ShapeKind(ShapeKind::Ellipse)));
    match &doc.pages[0].annotations[1].kind {
        AnnotationKind::Shape(s) => assert_eq!(s.shape, ShapeKind::Ellipse),
        _ => panic!("shape expected"),
    }
}

#[test]
fn annotation_change_applies_per_kind() {
    let mut kind = stroke(1).kind;
    assert!(apply_annotation_change(&mut kind, &AnnotationChange::StrokeWidth(bits(7.0))));
    assert!(!apply_annotation_change(&mut kind, &AnnotationChange::ShapeWidth(bits(7.0))));
    match kind {
        AnnotationKind::Stroke(s) => assert_eq!(s.width, bits(7.0)),
        _ => panic!("stroke expected"),
    }
}

#[test]
fn contains_id_finds_members() {
    assert!(contains_id(&[4, 5, 6], 5));
    assert!(!contains_id(&[4, 5, 6], 7));
    assert!(!contains_id(&[], 1));
}

#[test]
fn text_annotation_glyphs_flatten_runs() {
    let mut bold = TextStyle::default();
    bold.bold = true;
    let ann = TextAnnotation {
        x: 0,
        y: 0,
        size: bits(16.0),
        runs: vec![
            TextRun { text: "ab".to_string(), style: TextStyle::default() },
            TextRun { text: "c".to_string(), style: bold.clone() },
        ],
    };
    let g = ann.glyphs();
    assert_eq!(g.len(), 3);
    assert_eq!(g[1], ('b', TextStyle::default()));
    assert_eq!(g[2], ('c', bold));
    let src = PdfSource { name: "x.pdf".to_string(), bytes: vec![1, 2] };
    assert_eq!(src.name, "x.pdf");
}

#[test]
fn imported_pdf_gets_one_page_per_pdf_page() {
    let sizes = [(bits(300.0), bits(400.0)), (bits(500.0), bits(600.0))];
    let doc = Document::from_pdf("a.pdf".to_string(), vec![1, 2, 3], &sizes);
    assert_eq!(doc.source, Some(PdfSource { name: "a.pdf".to_string(), bytes: vec![1, 2, 3] }));
    assert_eq!(doc.pages.len(), 2);
    assert_eq!(doc.pages[1].kind, PageKind::Pdf { page_index: 1 });
    assert_eq!((doc.pages[1].width, doc.pages[1].height), sizes[1]);
    assert!(doc.pages.iter().all(|p| p.annotations.is_empty()));
}

#[test]
fn new_blank_pages_take_the_size_of_their_neighbour() {
    let doc = Document { source: None, pages: vec![pdf_page(0, 300.0, 400.0), pdf_page(1, 500.0, 600.0)] };
    assert_eq!(doc.blank_page_size(0), (bits(300.0), bits(400.0)));
    assert_eq!(doc.blank_page_size(7), (bits(500.0), bits(600.0)));
    assert_eq!(Document::new().blank_page_size(0), (A4_WIDTH, A4_HEIGHT));
}

#[test]
fn lifting_a_group_and_putting_it_back_keeps_every_annotation() {
    let mut doc = Document::new();
    doc.insert_blank_page(0, A4_WIDTH, A4_HEIGHT, Color::white(), PagePattern::Plain, DEFAULT_PATTERN_SPACING);
    doc.extend_annotations(0, vec![stroke(1), shape(2), stroke(3), text(4, "t")]);
    let lifted = doc.lift_annotations(0, &[2, 4]);
    assert!(doc.extend_annotations(0, lifted));
    let ids: Vec<u128> = doc.pages[0].annotations.iter().map(|a| a.id).collect();
    assert_eq!(ids, vec![1, 3, 2, 4]);
}

#[test]
fn taking_an_annotation_and_inserting_it_back_restores_the_page() {
    let mut doc = Document::new();
    doc.insert_blank_page(0, A4_WIDTH, A4_HEIGHT, Color::white(), PagePattern::Plain, DEFAULT_PATTERN_SPACING);
    doc.extend_annotations(0, vec![stroke(1), shape(2), stroke(3)]);
    let before = doc.clone();
    let taken = doc.take_annotation(0, 1).unwrap();
    assert!(doc.insert_annotation(0, 1, taken));
    assert_eq!(doc, before);
}

#[test]
fn pages_compare_equal_only_when_every_field_matches() {
    let mut a = pdf_page(0, 595.0, 842.0);
    a.annotations = vec![stroke(1), shape(2), text(3, "Hi")];
    let b = a.clone();
    assert!(page_equal(&a, &b));
    assert!(pages_equal(&[a.clone(), b.clone()], &[b.clone(), a.clone()]));
    assert!(!pages_equal(&[a.clone()], &[a.clone(), b.clone()]));

    let mut moved = b.clone();
    moved.annotations.swap(0, 1);
    assert!(!page_equal(&a, &moved));

    let mut retexted = b.clone();
    retexted.annotations[2] = text(3, "Ho");
    assert!(!annotations_equal(&a.annotations, &retexted.annotations));

    let mut wider = b.clone();
    wider.width = bits(600.0);
    assert!(!page_equal(&a, &wider));
}

#[test]
fn annotation_bodies_compare_by_variant_and_fields() {
    assert!(kinds_equal(&stroke(1).kind, &stroke(2).kind));
    assert!(!kinds_equal(&stroke(1).kind, &shape(1).kind));
    let split = vec![
        TextRun { text: "H".to_string(), style: TextStyle::default() },
        TextRun { text: "i".to_string(), style: TextStyle::default() },
    ];
    let whole = vec![TextRun { text: "Hi".to_string(), style: TextStyle::default() }];
    assert!(runs_equal(&whole, &whole.clone()));
    assert!(!runs_equal(&split, &whole));
}

#[test]
fn numbers_compare_as_f64s() {
    assert!(f64_bits_eq(bits(1.5), bits(1.5)));
    assert!(f64_bits_eq(bits(0.0), bits(-0.0)));
    assert!(!f64_bits_eq(bits(f64::NAN), bits(f64::NAN)));
    assert!(!f64_bits_eq(bits(1.0), bits(2.0)));
    assert!(!f64_bits_eq(bits(f64::INFINITY), bits(f64::NEG_INFINITY)));
    assert!(f64_bits_eq(bits(f64::INFINITY), bits(f64::INFINITY)));
}

#[test]
fn colors_and_styles_compare_as_f64s() {
    let zero = Color { r: bits(0.0), g: bits(0.0), b: bits(0.0), a: bits(1.0) };
    let minus_zero = Color { r: bits(-0.0), g: bits(0.0), b: bits(0.0), a: bits(1.0) };
    assert!(color_equal(zero, minus_zero));
    assert!(!color_equal(zero, Color::white()));
    let mut style = TextStyle::default();
    let mut other = TextStyle::default();
    assert!(style_equal(&style, &other));
    other.highlight = Some(minus_zero);
    assert!(!style_equal(&style, &other));
    style.highlight = Some(zero);
    assert!(style_equal(&style, &other));
    other.font = "Serif".to_string();
    assert!(!style_equal(&style, &other));
}

#[test]
fn pages_compare_their_numbers_as_f64s() {
    let a = pdf_page(0, 595.0, 0.0);
    let b = pdf_page(0, 595.0, -0.0);
    assert!(page_equal(&a, &b));
    let nan = pdf_page(0, f64::NAN, 842.0);
    assert!(!pages_equal(&[nan.clone()], &[nan]));
}

#[test]
fn page_sizes_fall_back_to_a4() {
    let sizes = [(bits(100.0), bits(200.0)), (bits(300.0), bits(400.0))];
    assert_eq!(size_or_a4(&sizes, 1), (bits(300.0), bits(400.0)));
    assert_eq!(size_or_a4(&sizes, 2), (A4_WIDTH, A4_HEIGHT));
    assert_eq!(size_or_a4(&[], 0), (A4_WIDTH, A4_HEIGHT));
}
