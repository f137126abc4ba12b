//! What a PDF shows, read back.

use fulgur::inspect::content::{DecodedStreams, PageContent, canonical_object_id, gather_page_content};
use fulgur::inspect::image_pass::{ImageStep, extract_image_items, images_of_operations};
use fulgur::inspect::metadata::Metadata;
use fulgur::inspect::pdf::PdfNumber;
use fulgur::inspect::resources::{
    ImageXObject, ImageXObjects, ResourcesOrigin, XObjectsOrigin, collect_image_xobjects, detect_image_format, resolve_page_resources,
    xobjects_origin,
};
use fulgur::inspect::steps::{GeometryStep, Matrix, Operand, Operation as PageOperation, obj_to_number};
use fulgur::inspect::strings::{clamp_str_bytes, decode_pdf_string, metadata_prefix, obj_as_name_str};
use fulgur::inspect::text_pass::{TextStep, extract_text_items, text_of_operations};
use fulgur::inspect::{InspectLimits, inspect};
use fulgur::limits::{
    MAX_PDF_CONTENT_BYTES, MAX_PDF_FONT_NAME_BYTES, MAX_PDF_GS_STACK_DEPTH, MAX_PDF_INSPECT_CONTENT_TOTAL_BYTES,
    MAX_PDF_INSPECT_ITEMS, MAX_PDF_INSPECT_TEXT_BYTES, MAX_PDF_METADATA_FIELD_BYTES, MAX_PDF_PARENT_DEPTH,
    PDF_CONTENT_STREAM_COST_FLOOR_BYTES,
};
use lopdf::content::{Content, Operation};
use lopdf::{Dictionary, Document, Object, Stream};

fn dictionary(entries: Vec<(&str, Object)>) -> Dictionary {
    let mut out = Dictionary::new();
    for (key, value) in entries {
        out.set(key, value);
    }
    out
}

/// A text at its place.
#[derive(Debug)]
struct PlacedText {
    page: u32,
    x: f32,
    y: f32,
    text: String,
    font: String,
}

/// An image at its place.
#[derive(Debug)]
struct PlacedImage {
    page: u32,
    x: f32,
    y: f32,
    width: f32,
    height: f32,
}

struct Inspected {
    pages: u32,
    metadata: Metadata,
    text_items: Vec<PlacedText>,
    images: Vec<PlacedImage>,
}

fn float(number: PdfNumber) -> f32 {
    match number {
        PdfNumber::Integer(n) => n as f32,
        PdfNumber::Real(bits) => f32::from_bits(bits),
    }
}

fn numbers(m: &Matrix) -> [f32; 6] {
    [float(m.a), float(m.b), float(m.c), float(m.d), float(m.e), float(m.f)]
}

/// The coordinates that steps lead to.
struct Replay {
    stack: Vec<[f32; 6]>,
    linear: [f32; 4],
    line: (f32, f32),
    leading: f32,
    place: (f32, f32),
}

impl Replay {
    fn new() -> Self {
        Replay {
            stack: vec![[1.0, 0.0, 0.0, 1.0, 0.0, 0.0]],
            linear: [1.0, 0.0, 0.0, 1.0],
            line: (0.0, 0.0),
            leading: 0.0,
            place: (0.0, 0.0),
        }
    }

    fn current(&self) -> [f32; 6] {
        *self.stack.last().unwrap()
    }

    fn at(&self, x: f32, y: f32) -> (f32, f32) {
        let m = self.current();
        (m[0] * x + m[2] * y + m[4], m[1] * x + m[3] * y + m[5])
    }

    fn shift(&mut self, dx: f32, dy: f32) {
        let [a, b, c, d] = self.linear;
        self.line = (self.line.0 + dx * a + dy * c, self.line.1 + dx * b + dy * d);
        self.place = self.at(self.line.0, self.line.1);
    }

    fn step(&mut self, step: &GeometryStep) {
        match step {
            GeometryStep::NewPage => *self = Replay::new(),
            GeometryStep::Save => self.stack.push(self.current()),
            GeometryStep::Restore => {
                self.stack.pop();
            }
            GeometryStep::Concat(matrix) => {
                let n = numbers(matrix);
                let m = self.current();
                *self.stack.last_mut().unwrap() = [
                    n[0] * m[0] + n[1] * m[2],
                    n[0] * m[1] + n[1] * m[3],
                    n[2] * m[0] + n[3] * m[2],
                    n[2] * m[1] + n[3] * m[3],
                    n[4] * m[0] + n[5] * m[2] + m[4],
                    n[4] * m[1] + n[5] * m[3] + m[5],
                ];
            }
            GeometryStep::BeginText => {
                self.linear = [1.0, 0.0, 0.0, 1.0];
                self.line = (0.0, 0.0);
                self.place = self.at(0.0, 0.0);
            }
            GeometryStep::TextMatrix(matrix) => {
                let n = numbers(matrix);
                self.linear = [n[0], n[1], n[2], n[3]];
                self.line = (n[4], n[5]);
                self.place = self.at(n[4], n[5]);
            }
            GeometryStep::Move { dx, dy, sets_leading } => {
                if *sets_leading {
                    self.leading = -float(*dy);
                }
                self.shift(float(*dx), float(*dy));
            }
            GeometryStep::Leading(leading) => self.leading = float(*leading),
            GeometryStep::NextLine => self.shift(0.0, -self.leading),
        }
    }
}

fn placed_texts(steps: Vec<TextStep>) -> Vec<PlacedText> {
    let mut replay = Replay::new();
    let mut out = Vec::new();
    for step in steps {
        match step {
            TextStep::Geometry(step) => replay.step(&step),
            TextStep::Show(item) => {
                let (x, y) = replay.place;
                replay.place.0 += item.text.chars().count() as f32 * float(item.font_size) * 0.5;
                out.push(PlacedText { page: item.page, x, y, text: item.text, font: item.font });
            }
        }
    }
    out
}

fn placed_images(steps: Vec<ImageStep>) -> Vec<PlacedImage> {
    let mut replay = Replay::new();
    let mut out = Vec::new();
    for step in steps {
        match step {
            ImageStep::Geometry(step) => replay.step(&step),
            ImageStep::Place(item) => {
                let corners = [replay.at(0.0, 0.0), replay.at(1.0, 0.0), replay.at(0.0, 1.0), replay.at(1.0, 1.0)];
                let x = corners.iter().map(|c| c.0).fold(f32::INFINITY, f32::min);
                let y = corners.iter().map(|c| c.1).fold(f32::INFINITY, f32::min);
                let right = corners.iter().map(|c| c.0).fold(f32::NEG_INFINITY, f32::max);
                let top = corners.iter().map(|c| c.1).fold(f32::NEG_INFINITY, f32::max);
                out.push(PlacedImage { page: item.page, x, y, width: right - x, height: top - y });
            }
        }
    }
    out
}

fn inspect_bytes(bytes: &[u8]) -> Inspected {
    let doc = Document::load_mem(bytes).unwrap();
    let result = inspect(&doc);
    Inspected {
        pages: result.pages,
        metadata: result.metadata,
        text_items: placed_texts(result.text_items),
        images: placed_images(result.images),
    }
}

fn inspect_bytes_with_limits(bytes: &[u8], limits: &InspectLimits) -> (Vec<PlacedText>, Vec<PlacedImage>) {
    let doc = Document::load_mem(bytes).unwrap();
    (placed_texts(extract_text_items(&doc, limits)), placed_images(extract_image_items(&doc, limits)))
}

#[test]
fn obj_to_f32_returns_zero_for_non_numeric_object() {
    assert_eq!(float(obj_to_number(&Object::Null)), 0.0);
    assert_eq!(float(obj_to_number(&Object::Boolean(true))), 0.0);
    assert_eq!(float(obj_to_number(&Object::Name(b"F1".to_vec()))), 0.0);
    assert_eq!(float(obj_to_number(&Object::Integer(5))), 5.0);
    assert!((float(obj_to_number(&Object::Real(2.5))) - 2.5).abs() < 1e-4);
}

#[test]
fn decode_pdf_string_latin1() {
    let bytes = b"Hello";
    assert_eq!(decode_pdf_string(bytes), "Hello");
}

#[test]
fn decode_pdf_string_utf16be() {
    let bytes = &[0xFE, 0xFF, 0x00, 0x48, 0x00, 0x69];
    assert_eq!(decode_pdf_string(bytes), "Hi");
}

#[test]
fn decode_pdf_string_utf16be_odd_trailing_byte_ignored() {
    let bytes = &[0xFE, 0xFF, 0x00, 0x41, 0xFF];
    let s = decode_pdf_string(bytes);
    assert_eq!(s, "A");
}

#[test]
fn detect_image_format_jpeg() {
    let mut dict = Dictionary::new();
    dict.set("Filter", Object::Name(b"DCTDecode".to_vec()));
    assert_eq!(detect_image_format(&dict), "jpeg");
}

#[test]
fn detect_image_format_flate() {
    let mut dict = Dictionary::new();
    dict.set("Filter", Object::Name(b"FlateDecode".to_vec()));
    assert_eq!(detect_image_format(&dict), "flate");
}

#[test]
fn detect_image_format_jp2() {
    let mut dict = Dictionary::new();
    dict.set("Filter", Object::Name(b"JPXDecode".to_vec()));
    assert_eq!(detect_image_format(&dict), "jp2");
}

#[test]
fn detect_image_format_tiff() {
    let mut dict = Dictionary::new();
    dict.set("Filter", Object::Name(b"CCITTFaxDecode".to_vec()));
    assert_eq!(detect_image_format(&dict), "tiff");
}

#[test]
fn detect_image_format_unknown() {
    let dict = Dictionary::new();
    assert_eq!(detect_image_format(&dict), "unknown");
}

#[test]
fn detect_image_format_array_filter() {
    let mut dict = Dictionary::new();
    dict.set(
        "Filter",
        Object::Array(vec![
            Object::Name(b"ASCII85Decode".to_vec()),
            Object::Name(b"DCTDecode".to_vec()),
        ]),
    );
    assert_eq!(detect_image_format(&dict), "jpeg");
}

#[test]
fn detect_image_format_unrecognized_name_filter() {
    let mut dict = Dictionary::new();
    dict.set("Filter", Object::Name(b"ASCII85Decode".to_vec()));
    assert_eq!(detect_image_format(&dict), "unknown");
}

#[test]
fn detect_image_format_non_name_non_array_filter_object() {
    let mut dict = Dictionary::new();
    dict.set("Filter", Object::Integer(1));
    assert_eq!(detect_image_format(&dict), "unknown");
}
/// A page that places text by leading and offsets.
fn make_pdf_with_text_positioning_ops() -> Vec<u8> {

    let mut doc = Document::with_version("1.5");
    let pages_id = doc.new_object_id();
    let resources_id = doc.add_object(dictionary(vec![
        ("Font", Object::from(dictionary(vec![
            ("F1", Object::from(dictionary(vec![
                ("Type", Object::from("Font")),
                ("Subtype", Object::from("Type1")),
                ("BaseFont", Object::from("Courier")),
            ]))),
        ]))),
    ]));

    let content = Content {
        operations: vec![
            Operation::new("BT", vec![]),
            Operation::new(
                "Tf",
                vec![Object::Name(b"F1".to_vec()), Object::Integer(12)],
            ),
            Operation::new("TL", vec![Object::Real(14.0)]),
            Operation::new("Td", vec![Object::Real(100.0), Object::Real(700.0)]),
            Operation::new("Tj", vec![Object::string_literal("Line1")]),
            Operation::new("TD", vec![Object::Real(0.0), Object::Real(-14.0)]),
            Operation::new("Tj", vec![Object::string_literal("Line2")]),
            Operation::new("T*", vec![]),
            Operation::new("Tj", vec![Object::string_literal("Line3")]),
            Operation::new("ET", vec![]),
        ],
    };

    let content_id = doc.add_object(Stream::new(Dictionary::new(), content.encode().unwrap()));
    let page_id = doc.add_object(dictionary(vec![
        ("Type", Object::from("Page")),
        ("Parent", Object::from(pages_id)),
        ("Contents", Object::from(content_id)),
        ("Resources", Object::from(resources_id)),
        ("MediaBox", Object::from(vec![
            Object::Integer(0),
            Object::Integer(0),
            Object::Integer(595),
            Object::Integer(842),
        ])),
    ]));
    doc.objects.insert(
        pages_id,
        Object::Dictionary(dictionary(vec![
            ("Type", Object::from("Pages")),
            ("Kids", Object::from(vec![Object::Reference(page_id)])),
            ("Count", Object::Integer(1)),
        ])),
    );
    let catalog_id = doc.add_object(dictionary(vec![
        ("Type", Object::from("Catalog")),
        ("Pages", Object::from(pages_id)),
    ]));
    doc.trailer.set("Root", Object::Reference(catalog_id));

    let mut buf = Vec::new();
    doc.save_to(&mut buf).unwrap();
    buf
}

#[test]
fn inspect_text_operators_tl_td_td_tstar_produce_text_items() {
    let pdf = make_pdf_with_text_positioning_ops();
    let result = inspect_bytes(&pdf);
    assert_eq!(
        result.text_items.len(),
        3,
        "expected 3 text items from Td/TD/T* positioned text"
    );
    let texts: Vec<&str> = result.text_items.iter().map(|i| i.text.as_str()).collect();
    assert!(texts.contains(&"Line1"), "missing Line1");
    assert!(texts.contains(&"Line2"), "missing Line2");
    assert!(texts.contains(&"Line3"), "missing Line3");
}

#[test]
fn inspect_text_td_advances_position() {
    let pdf = make_pdf_with_text_positioning_ops();
    let result = inspect_bytes(&pdf);
    let first = result.text_items.first().expect("expected text items");
    assert!(
        (first.x - 100.0).abs() < 1e-4,
        "expected text x to be exactly 100.0, got {}",
        first.x
    );
}

#[test]
fn inspect_text_td_updates_leading_via_td_operator() {
    let pdf = make_pdf_with_text_positioning_ops();
    let result = inspect_bytes(&pdf);
    assert!(result.text_items.len() >= 3, "need at least 3 text items");
    let y1 = result.text_items[1].y;
    let y2 = result.text_items[2].y;
    let diff = (y2 - y1).abs();
    assert!(
        (diff - 14.0).abs() < 1e-4,
        "expected T* to advance y by exactly 14.0, got {diff}"
    );
}

#[test]
fn inspect_metadata_returns_all_none_when_no_info_dict() {

    let mut doc = Document::with_version("1.5");
    let pages_id = doc.new_object_id();
    let content = Content {
        operations: vec![
            Operation::new("BT", vec![]),
            Operation::new(
                "Tf",
                vec![Object::Name(b"F1".to_vec()), Object::Integer(12)],
            ),
            Operation::new(
                "Tm",
                vec![
                    Object::Real(1.0),
                    Object::Real(0.0),
                    Object::Real(0.0),
                    Object::Real(1.0),
                    Object::Real(72.0),
                    Object::Real(720.0),
                ],
            ),
            Operation::new("Tj", vec![Object::string_literal("hi")]),
            Operation::new("ET", vec![]),
        ],
    };
    let content_id = doc.add_object(Stream::new(Dictionary::new(), content.encode().unwrap()));
    let resources_id = doc.add_object(dictionary(vec![
        ("Font", Object::from(dictionary(vec![
            ("F1", Object::from(dictionary(vec![
                ("Type", Object::from("Font")),
                ("Subtype", Object::from("Type1")),
                ("BaseFont", Object::from("Courier")),
            ]))),
        ]))),
    ]));
    let page_id = doc.add_object(dictionary(vec![
        ("Type", Object::from("Page")),
        ("Parent", Object::from(pages_id)),
        ("Contents", Object::from(content_id)),
        ("Resources", Object::from(resources_id)),
        ("MediaBox", Object::from(vec![
            Object::Integer(0),
            Object::Integer(0),
            Object::Integer(595),
            Object::Integer(842),
        ])),
    ]));
    doc.objects.insert(
        pages_id,
        Object::Dictionary(dictionary(vec![
            ("Type", Object::from("Pages")),
            ("Kids", Object::from(vec![Object::Reference(page_id)])),
            ("Count", Object::Integer(1)),
        ])),
    );
    let catalog_id = doc.add_object(dictionary(vec![
        ("Type", Object::from("Catalog")),
        ("Pages", Object::from(pages_id)),
    ]));
    doc.trailer.set("Root", Object::Reference(catalog_id));

    let mut buf = Vec::new();
    doc.save_to(&mut buf).unwrap();

    let result = inspect_bytes(&buf);
    assert_eq!(result.metadata.title, None);
    assert_eq!(result.metadata.author, None);
    assert_eq!(result.metadata.creator, None);
    assert_eq!(result.metadata.created_at, None);
    assert_eq!(result.metadata.modified_at, None);
}
#[test]
fn resolve_page_resources_stops_on_multi_node_parent_cycle() {

    let mut doc = Document::new();
    doc.objects.insert(
        (1, 0),
        Object::Dictionary(dictionary(vec![
            ("Type", Object::from("Page")),
            ("Parent", Object::Reference((2, 0))),
        ])),
    );
    doc.objects.insert(
        (2, 0),
        Object::Dictionary(dictionary(vec![
            ("Type", Object::from("Pages")),
            ("Parent", Object::Reference((3, 0))),
        ])),
    );
    doc.objects.insert(
        (3, 0),
        Object::Dictionary(dictionary(vec![
            ("Type", Object::from("Pages")),
            ("Parent", Object::Reference((2, 0))),
        ])),
    );

    assert!(resolve_page_resources(&doc, (1, 0)).is_none());
}
/// Whether resources behind ancestors are found, each ancestor behind aliases.
fn resolves(depth: usize, alias: usize) -> bool {
    let mut doc = Document::new();
    let resources = doc.add_object(dictionary(vec![ ("XObject", Object::Null) ]));
    let page_id = doc.new_object_id();
    let mut prev = page_id;
    for step in 0..depth {
        let node = doc.new_object_id();
        let mut target = node;
        for _ in 0..alias {
            target = doc.add_object(Object::Reference(target));
        }
        let dict = if step + 1 == depth {
            dictionary(vec![ ("Type", Object::from("Pages")), ("Resources", Object::from(resources)) ])
        } else {
            dictionary(vec![ ("Type", Object::from("Pages")) ])
        };
        doc.objects.insert(node, Object::Dictionary(dict));
        let parented = match doc.objects.remove(&prev) {
            Some(Object::Dictionary(mut d)) => {
                d.set("Parent", Object::Reference(target));
                d
            }
            _ => dictionary(vec![
                ("Type", Object::from(if prev == page_id { "Page" } else { "Pages" })),
                ("Parent", Object::Reference(target)),
            ]),
        };
        doc.objects.insert(prev, Object::Dictionary(parented));
        prev = node;
    }
    resolve_page_resources(&doc, page_id).is_some()
}

#[test]
fn parent_walk_and_alias_hops_share_one_budget() {
    assert!(resolves(4, 0), "4 ancestors, no aliases");
    assert!(
        resolves(MAX_PDF_PARENT_DEPTH, 0),
        "ancestors up to the bound"
    );
    assert!(
        !resolves(MAX_PDF_PARENT_DEPTH + 1, 0),
        "one ancestor past the bound must be refused",
    );
    assert!(resolves(4, 31), "4 * 32 == MAX_PDF_PARENT_DEPTH hops");
    assert!(
        !resolves(4, 32),
        "4 * 33 hops must be refused — per-axis bounds would allow this, \
         since 4 ancestors and 32 aliases are each far inside the bound",
    );
}
/// A document with one page for each content.
fn make_pdf_with_raw_contents(page_contents: Vec<Vec<u8>>) -> Vec<u8> {

    let mut doc = Document::with_version("1.5");
    let pages_id = doc.new_object_id();
    let resources_id = doc.add_object(dictionary(vec![
        ("Font", Object::from(dictionary(vec![
            ("F1", Object::from(dictionary(vec![
                ("Type", Object::from("Font")),
                ("Subtype", Object::from("Type1")),
                ("BaseFont", Object::from("Courier")),
            ]))),
        ]))),
    ]));
    let page_count = page_contents.len();
    let mut kids = Vec::with_capacity(page_count);
    for raw_content in page_contents {
        let content_id = doc.add_object(Stream::new(Dictionary::new(), raw_content));
        let page_id = doc.add_object(dictionary(vec![
            ("Type", Object::from("Page")),
            ("Parent", Object::from(pages_id)),
            ("Contents", Object::from(content_id)),
            ("Resources", Object::from(resources_id)),
            ("MediaBox", Object::from(vec![
                Object::Integer(0),
                Object::Integer(0),
                Object::Integer(595),
                Object::Integer(842),
            ])),
        ]));
        kids.push(Object::Reference(page_id));
    }
    doc.objects.insert(
        pages_id,
        Object::Dictionary(dictionary(vec![
            ("Type", Object::from("Pages")),
            ("Kids", Object::from(kids)),
            ("Count", Object::Integer(page_count as i64)),
        ])),
    );
    let catalog_id = doc.add_object(dictionary(vec![
        ("Type", Object::from("Catalog")),
        ("Pages", Object::from(pages_id)),
    ]));
    doc.trailer.set("Root", Object::Reference(catalog_id));

    let mut buf = Vec::new();
    doc.save_to(&mut buf).unwrap();
    buf
}

fn make_pdf_with_raw_content(raw_content: Vec<u8>) -> Vec<u8> {
    make_pdf_with_raw_contents(vec![raw_content])
}
/// A page with several content streams.
fn make_pdf_with_multiple_content_streams(streams: Vec<Vec<u8>>) -> Vec<u8> {

    let mut doc = Document::with_version("1.5");
    let pages_id = doc.new_object_id();
    let resources_id = doc.add_object(dictionary(vec![
        ("Font", Object::from(dictionary(vec![
            ("F1", Object::from(dictionary(vec![
                ("Type", Object::from("Font")),
                ("Subtype", Object::from("Type1")),
                ("BaseFont", Object::from("Courier")),
            ]))),
        ]))),
    ]));
    let content_refs: Vec<Object> = streams
        .into_iter()
        .map(|raw| Object::Reference(doc.add_object(Stream::new(Dictionary::new(), raw))))
        .collect();
    let page_id = doc.add_object(dictionary(vec![
        ("Type", Object::from("Page")),
        ("Parent", Object::from(pages_id)),
        ("Contents", Object::from(content_refs)),
        ("Resources", Object::from(resources_id)),
        ("MediaBox", Object::from(vec![
            Object::Integer(0),
            Object::Integer(0),
            Object::Integer(595),
            Object::Integer(842),
        ])),
    ]));
    doc.objects.insert(
        pages_id,
        Object::Dictionary(dictionary(vec![
            ("Type", Object::from("Pages")),
            ("Kids", Object::from(vec![Object::Reference(page_id)])),
            ("Count", Object::Integer(1)),
        ])),
    );
    let catalog_id = doc.add_object(dictionary(vec![
        ("Type", Object::from("Catalog")),
        ("Pages", Object::from(pages_id)),
    ]));
    doc.trailer.set("Root", Object::Reference(catalog_id));

    let mut buf = Vec::new();
    doc.save_to(&mut buf).unwrap();
    buf
}
/// A page with an image `Im0` and a content.
fn make_pdf_with_image_and_raw_content(raw_content: Vec<u8>) -> Vec<u8> {

    let mut doc = Document::with_version("1.5");
    let pages_id = doc.new_object_id();
    let image_id = doc.add_object(Stream::new(
        dictionary(vec![
            ("Type", Object::from("XObject")),
            ("Subtype", Object::from("Image")),
            ("Width", Object::Integer(4)),
            ("Height", Object::Integer(4)),
            ("ColorSpace", Object::from("DeviceGray")),
            ("BitsPerComponent", Object::Integer(8)),
        ]),
        vec![0u8; 16],
    ));
    let resources_id = doc.add_object(dictionary(vec![
        ("XObject", Object::from(dictionary(vec![
            ("Im0", Object::Reference(image_id)),
        ]))),
    ]));
    let content_id = doc.add_object(Stream::new(Dictionary::new(), raw_content));
    let page_id = doc.add_object(dictionary(vec![
        ("Type", Object::from("Page")),
        ("Parent", Object::from(pages_id)),
        ("Contents", Object::from(content_id)),
        ("Resources", Object::from(resources_id)),
        ("MediaBox", Object::from(vec![
            Object::Integer(0),
            Object::Integer(0),
            Object::Integer(595),
            Object::Integer(842),
        ])),
    ]));
    doc.objects.insert(
        pages_id,
        Object::Dictionary(dictionary(vec![
            ("Type", Object::from("Pages")),
            ("Kids", Object::from(vec![Object::Reference(page_id)])),
            ("Count", Object::Integer(1)),
        ])),
    );
    let catalog_id = doc.add_object(dictionary(vec![
        ("Type", Object::from("Catalog")),
        ("Pages", Object::from(pages_id)),
    ]));
    doc.trailer.set("Root", Object::Reference(catalog_id));

    let mut buf = Vec::new();
    doc.save_to(&mut buf).unwrap();
    buf
}
#[test]
fn content_stream_above_byte_cap_is_skipped() {
    let mut content = b"BT /F1 12 Tf\n".to_vec();
    while content.len() <= MAX_PDF_CONTENT_BYTES {
        content.extend_from_slice(b"(A) Tj\n");
    }
    content.extend_from_slice(b"ET\n");
    assert!(content.len() > MAX_PDF_CONTENT_BYTES);

    let result = inspect_bytes(&make_pdf_with_raw_content(content));
    assert!(
        result.text_items.is_empty(),
        "oversized content stream must be skipped, got {} items",
        result.text_items.len()
    );
    assert_eq!(result.pages, 1);
}
#[test]
fn content_stream_below_byte_cap_is_parsed() {
    let mut content = b"BT /F1 12 Tf\n".to_vec();
    while content.len() + 7 <= MAX_PDF_CONTENT_BYTES - 16 {
        content.extend_from_slice(b"(A) Tj\n");
    }
    content.extend_from_slice(b"ET\n");
    assert!(content.len() <= MAX_PDF_CONTENT_BYTES);

    let result = inspect_bytes(&make_pdf_with_raw_content(content));
    assert!(
        !result.text_items.is_empty(),
        "content stream under the cap must still be parsed"
    );
}
#[test]
fn graphics_state_nesting_beyond_cap_stays_balanced() {
    let depth = MAX_PDF_GS_STACK_DEPTH + 500;
    let mut content = b"1 0 0 1 100 700 cm\n".to_vec();
    for _ in 0..depth {
        content.extend_from_slice(b"q\n");
    }
    content.extend_from_slice(b"1 0 0 1 50 50 cm\n");
    for _ in 0..depth {
        content.extend_from_slice(b"Q\n");
    }
    content.extend_from_slice(b"BT /F1 12 Tf (Anchor) Tj ET\n");

    let result = inspect_bytes(&make_pdf_with_raw_content(content));
    let item = result
        .text_items
        .first()
        .expect("text after balanced nesting must still be extracted");
    assert_eq!(item.text, "Anchor");
    assert!(
        (item.x - 100.0).abs() < 0.01 && (item.y - 700.0).abs() < 0.01,
        "expected outer CTM origin (100, 700), got ({}, {})",
        item.x,
        item.y
    );
}
#[test]
fn wide_font_name_survives_deep_nesting_and_restore() {
    let name = "F".repeat(4096);
    let mut content = format!("BT /{name} 12 Tf\n").into_bytes();
    for _ in 0..(MAX_PDF_GS_STACK_DEPTH + 500) {
        content.extend_from_slice(b"q\n");
    }
    for _ in 0..(MAX_PDF_GS_STACK_DEPTH + 500) {
        content.extend_from_slice(b"Q\n");
    }
    content.extend_from_slice(b"(Deep) Tj ET\n");

    let result = inspect_bytes(&make_pdf_with_raw_content(content));
    let item = result
        .text_items
        .first()
        .expect("text after balanced nesting must still be extracted");
    assert_eq!(
        item.font,
        "F".repeat(MAX_PDF_FONT_NAME_BYTES),
        "clamped font name must survive save/restore intact"
    );
}
#[test]
fn wide_font_name_is_clamped_in_every_record() {
    let name = "F".repeat(64 * 1024);
    let mut content = format!("BT /{name} 12 Tf\n").into_bytes();
    for _ in 0..1000 {
        content.extend_from_slice(b"(A) Tj\n");
    }
    content.extend_from_slice(b"ET\n");

    let result = inspect_bytes(&make_pdf_with_raw_content(content));
    assert_eq!(result.text_items.len(), 1000);
    for item in &result.text_items {
        assert_eq!(item.font.len(), MAX_PDF_FONT_NAME_BYTES);
    }
}
#[test]
fn wide_font_name_clamp_respects_char_boundaries() {
    let name = "あ".repeat(128);
    assert!(name.len() > MAX_PDF_FONT_NAME_BYTES);
    let content = format!("BT /{name} 12 Tf (Multi) Tj ET\n").into_bytes();

    let result = inspect_bytes(&make_pdf_with_raw_content(content));
    let item = result
        .text_items
        .first()
        .expect("text with a multi-byte font name must still be extracted");
    assert_eq!(item.font, "あ".repeat(MAX_PDF_FONT_NAME_BYTES / 3));
    assert!(item.font.len() <= MAX_PDF_FONT_NAME_BYTES);
}
#[test]
fn text_item_count_is_capped_across_pages() {
    let items_per_page: usize = 50_000;
    let mut page = b"BT /F1 12 Tf\n".to_vec();
    page.reserve(items_per_page * 7 + 32);
    for _ in 0..items_per_page {
        page.extend_from_slice(b"(A) Tj\n");
    }
    page.extend_from_slice(b"ET\n");
    assert!(
        page.len() <= MAX_PDF_CONTENT_BYTES,
        "each page must stay under the byte cap to isolate the item cap"
    );
    let pages = MAX_PDF_INSPECT_ITEMS / items_per_page + 1;
    let pdf = make_pdf_with_raw_contents(vec![page; pages]);

    let result = inspect_bytes(&pdf);
    assert_eq!(result.pages as usize, pages);
    assert_eq!(result.text_items.len(), MAX_PDF_INSPECT_ITEMS);
}
#[test]
fn image_pass_skips_content_stream_above_byte_cap() {
    let mut content = Vec::new();
    while content.len() <= MAX_PDF_CONTENT_BYTES {
        content.extend_from_slice(b"q 1 0 0 1 1 1 cm /Im0 Do Q\n");
    }
    assert!(content.len() > MAX_PDF_CONTENT_BYTES);

    let result = inspect_bytes(&make_pdf_with_image_and_raw_content(content));
    assert!(
        result.images.is_empty(),
        "oversized content stream must be skipped, got {} images",
        result.images.len()
    );
    assert_eq!(result.pages, 1);
}
#[test]
fn image_placement_survives_graphics_state_nesting_beyond_cap() {
    let depth = MAX_PDF_GS_STACK_DEPTH + 500;

    let mut content = b"1 0 0 1 100 700 cm\n".to_vec();
    for _ in 0..depth {
        content.extend_from_slice(b"q\n");
    }
    content.extend_from_slice(b"1 0 0 1 33 44 cm\n");
    for _ in 0..depth {
        content.extend_from_slice(b"Q\n");
    }
    content.extend_from_slice(b"50 0 0 50 0 0 cm\n/Im0 Do\n");

    let result = inspect_bytes(&make_pdf_with_image_and_raw_content(content));
    let img = result
        .images
        .first()
        .expect("image after balanced nesting must still be extracted");
    assert!(
        (img.x - 100.0).abs() < 0.01 && (img.y - 700.0).abs() < 0.01,
        "expected outer CTM origin (100, 700), got ({}, {})",
        img.x,
        img.y
    );
    assert!((img.width - 50.0).abs() < 0.01, "width {}", img.width);
    assert!((img.height - 50.0).abs() < 0.01, "height {}", img.height);
}
#[test]
fn dropped_frame_state_does_not_leak_past_matching_q() {
    let mut content = b"1 0 0 1 100 700 cm\n".to_vec();
    for _ in 0..MAX_PDF_GS_STACK_DEPTH {
        content.extend_from_slice(b"q\n");
    }
    content.extend_from_slice(b"1 0 0 1 50 50 cm\n");
    content.extend_from_slice(b"Q\n");
    content.extend_from_slice(b"BT /F1 12 Tf (Anchor) Tj ET\n");

    let result = inspect_bytes(&make_pdf_with_raw_content(content));
    let item = result
        .text_items
        .first()
        .expect("text after the dropped frame closes must still be extracted");
    assert_eq!(item.text, "Anchor");
    assert!(
        (item.x - 100.0).abs() < 0.01 && (item.y - 700.0).abs() < 0.01,
        "dropped-frame `cm` leaked: expected outer CTM (100, 700), got ({}, {})",
        item.x,
        item.y
    );
}
#[test]
fn image_dropped_frame_state_does_not_leak_past_matching_q() {
    let mut content = b"1 0 0 1 100 700 cm\n".to_vec();
    for _ in 0..MAX_PDF_GS_STACK_DEPTH {
        content.extend_from_slice(b"q\n");
    }
    content.extend_from_slice(b"10 0 0 10 33 44 cm\n");
    content.extend_from_slice(b"Q\n");
    content.extend_from_slice(b"50 0 0 50 0 0 cm\n/Im0 Do\n");

    let result = inspect_bytes(&make_pdf_with_image_and_raw_content(content));
    let img = result
        .images
        .first()
        .expect("image after the dropped frame closes must still be extracted");
    assert!(
        (img.x - 100.0).abs() < 0.01 && (img.y - 700.0).abs() < 0.01,
        "dropped-frame `cm` leaked: expected outer CTM (100, 700), got ({}, {})",
        img.x,
        img.y
    );
    assert!((img.width - 50.0).abs() < 0.01, "width {}", img.width);
    assert!((img.height - 50.0).abs() < 0.01, "height {}", img.height);
}
#[test]
fn page_content_total_is_capped_across_streams() {
    let mut stream = b"BT /F1 12 Tf\n".to_vec();
    while stream.len() < MAX_PDF_CONTENT_BYTES / 8 {
        stream.extend_from_slice(b"(A) Tj\n");
    }
    stream.extend_from_slice(b"ET\n");
    assert!(stream.len() < MAX_PDF_CONTENT_BYTES);
    let streams = vec![stream; 10];
    assert!(streams.iter().map(Vec::len).sum::<usize>() > MAX_PDF_CONTENT_BYTES);

    let result = inspect_bytes(&make_pdf_with_multiple_content_streams(streams));
    assert!(
        result.text_items.is_empty(),
        "page over the total budget must be skipped, got {} items",
        result.text_items.len()
    );
    assert_eq!(result.pages, 1);
}
#[test]
fn page_content_under_cap_is_joined_across_streams() {
    let streams = vec![
        b"BT /F1 12 Tf 1 0 0 1 10 800 Tm (First) Tj".to_vec(),
        b"1 0 0 1 10 780 Tm (Second) Tj".to_vec(),
        b"1 0 0 1 10 760 Tm (Third) Tj ET".to_vec(),
    ];

    let result = inspect_bytes(&make_pdf_with_multiple_content_streams(streams));
    let texts: Vec<&str> = result.text_items.iter().map(|i| i.text.as_str()).collect();
    assert_eq!(
        texts,
        ["First", "Second", "Third"],
        "streams must be joined with a separator and parsed in order"
    );
}
/// Pages that share one content.
fn make_pdf_with_shared_content_stream(
    pages: usize,
    payload: Vec<u8>,
    with_image: bool,
) -> Vec<u8> {

    let mut doc = Document::with_version("1.5");
    let pages_id = doc.new_object_id();
    let mut resources = dictionary(vec![
        ("Font", Object::from(dictionary(vec![
            ("F1", Object::from(dictionary(vec![
                ("Type", Object::from("Font")), ("Subtype", Object::from("Type1")), ("BaseFont", Object::from("Courier")),
            ]))),
        ]))),
    ]);
    if with_image {
        let image_id = doc.add_object(Stream::new(
            dictionary(vec![
                ("Type", Object::from("XObject")), ("Subtype", Object::from("Image")),
                ("Width", Object::Integer(4)), ("Height", Object::Integer(4)),
                ("ColorSpace", Object::from("DeviceGray")), ("BitsPerComponent", Object::Integer(8)),
            ]),
            vec![0u8; 16],
        ));
        resources.set(
            "XObject",
            dictionary(vec![ ("Im0", Object::Reference(image_id)) ]),
        );
    }
    let resources_id = doc.add_object(resources);
    let shared_content = doc.add_object(Stream::new(Dictionary::new(), payload));
    let mut kids = Vec::with_capacity(pages);
    for _ in 0..pages {
        kids.push(Object::Reference(doc.add_object(dictionary(vec![
            ("Type", Object::from("Page")),
            ("Parent", Object::from(pages_id)),
            ("Contents", Object::Reference(shared_content)),
            ("Resources", Object::from(resources_id)),
            ("MediaBox", Object::from(vec![
                Object::Integer(0), Object::Integer(0),
                Object::Integer(595), Object::Integer(842),
            ])),
        ]))));
    }
    doc.objects.insert(
        pages_id,
        Object::Dictionary(dictionary(vec![
            ("Type", Object::from("Pages")),
            ("Kids", Object::from(kids)),
            ("Count", Object::Integer(pages as i64)),
        ])),
    );
    let catalog_id = doc.add_object(dictionary(vec![ ("Type", Object::from("Catalog")), ("Pages", Object::from(pages_id)) ]));
    doc.trailer.set("Root", Object::Reference(catalog_id));

    let mut buf = Vec::new();
    doc.save_to(&mut buf).unwrap();
    buf
}
#[test]
fn retained_text_bytes_are_capped_across_pages() {
    let string_len: usize = 512 * 1024;
    let payload = {
        let mut p = b"BT /F1 12 Tf (".to_vec();
        p.extend(std::iter::repeat_n(b'A', string_len));
        p.extend_from_slice(b") Tj ET\n");
        p
    };
    assert!(
        payload.len() <= MAX_PDF_CONTENT_BYTES,
        "page must be in bound"
    );
    let pages = (MAX_PDF_INSPECT_TEXT_BYTES / string_len) * 2;
    let result = inspect_bytes(&make_pdf_with_shared_content_stream(pages, payload, false));

    let total: usize = result.text_items.iter().map(|i| i.text.len()).sum();
    assert!(
        total <= MAX_PDF_INSPECT_TEXT_BYTES + string_len,
        "retained text {total} exceeds the budget plus one record"
    );
    assert!(
        result.text_items.len() < pages,
        "expected truncation: got {} records from {} pages",
        result.text_items.len(),
        pages
    );
    assert!(
        !result.text_items.is_empty(),
        "must still extract some text"
    );
}
/// A content filled up to the most that a page may have.
fn budget_filler_page(op: &[u8]) -> Vec<u8> {
    let mut payload = op.to_vec();
    payload.resize(MAX_PDF_CONTENT_BYTES - 64, b' ');
    payload
}
#[test]
fn aggregate_content_decoding_is_capped_across_pages() {
    let payload = budget_filler_page(b"BT /F1 12 Tf (P) Tj ET\n");
    let per_page = payload.len() + 1;
    let pages = (MAX_PDF_INSPECT_CONTENT_TOTAL_BYTES / per_page) * 3 / 2;

    let result = inspect_bytes(&make_pdf_with_shared_content_stream(pages, payload, false));
    assert_eq!(result.pages as usize, pages);
    assert!(
        !result.text_items.is_empty(),
        "pages within the budget must still be extracted"
    );
    assert!(
        result.text_items.len() < pages,
        "expected truncation: got {} records from {} pages",
        result.text_items.len(),
        pages
    );
}
#[test]
fn aggregate_content_decoding_is_capped_across_pages_for_images() {
    let payload = budget_filler_page(b"q 50 0 0 50 0 0 cm /Im0 Do Q\n");
    let per_page = payload.len() + 1;
    let pages = (MAX_PDF_INSPECT_CONTENT_TOTAL_BYTES / per_page) * 3 / 2;

    let result = inspect_bytes(&make_pdf_with_shared_content_stream(pages, payload, true));
    assert_eq!(result.pages as usize, pages);
    assert!(
        !result.images.is_empty(),
        "pages within the budget must still be extracted"
    );
    assert!(
        result.images.len() < pages,
        "expected truncation: got {} images from {} pages",
        result.images.len(),
        pages
    );
}
/// Pages that each show one text and one image, and save the state many times.
fn limits_fixture(pages: usize, ops_per_page: usize) -> Vec<u8> {
    let mut payload = b"BT /F1 12 Tf (P) Tj ET\nq 50 0 0 50 0 0 cm /Im0 Do Q\n".to_vec();
    payload.extend_from_slice(&b"q\n".repeat(ops_per_page));
    make_pdf_with_shared_content_stream(pages, payload, true)
}
#[test]
fn limits_operation_budget_stops_the_page_walk() {
    let pages: usize = 40;
    let ops_per_page: usize = 100;
    let pdf = limits_fixture(pages, ops_per_page);

    let limits = InspectLimits {
        operations: ops_per_page * pages / 4,
        ..InspectLimits::default()
    };
    let (text, images) = inspect_bytes_with_limits(&pdf, &limits);

    assert!(
        !text.is_empty() && text.len() < pages,
        "text {}",
        text.len()
    );
    assert!(
        !images.is_empty() && images.len() < pages,
        "images {}",
        images.len()
    );
    let (text, images) = inspect_bytes_with_limits(&pdf, &InspectLimits::default());
    assert_eq!(text.len(), pages);
    assert_eq!(images.len(), pages);
}
#[test]
fn limits_content_budget_stops_the_page_walk() {
    let pages: usize = 40;
    let affordable: usize = 10;
    let pdf = limits_fixture(pages, 0);

    let limits = InspectLimits {
        content_total_bytes: PDF_CONTENT_STREAM_COST_FLOOR_BYTES * affordable,
        ..InspectLimits::default()
    };
    let (text, images) = inspect_bytes_with_limits(&pdf, &limits);
    assert!(
        !text.is_empty() && text.len() < pages,
        "expected 1..{pages} text records, got {}",
        text.len()
    );
    assert!(
        !images.is_empty() && images.len() < pages,
        "expected 1..{pages} images, got {}",
        images.len()
    );
    let (text, images) = inspect_bytes_with_limits(&pdf, &InspectLimits::default());
    assert_eq!(text.len(), pages);
    assert_eq!(images.len(), pages);
}
#[test]
fn limits_text_byte_budget_stops_extraction() {
    let pages: usize = 40;
    let pdf = limits_fixture(pages, 0);

    let limits = InspectLimits {
        text_bytes: 8,
        ..InspectLimits::default()
    };
    let (text, _) = inspect_bytes_with_limits(&pdf, &limits);
    assert!(!text.is_empty(), "the first record is always admitted");
    assert!(text.len() < pages, "text {}", text.len());
}
#[test]
fn limits_empty_content_streams_are_charged_a_cost_floor() {
    let empties: usize = 200;
    let mut streams = vec![Vec::new(); empties];
    streams.push(b"BT /F1 12 Tf 1 0 0 1 10 800 Tm (Reached) Tj ET".to_vec());
    let pdf = make_pdf_with_multiple_content_streams(streams);
    let starved = InspectLimits {
        content_total_bytes: empties * PDF_CONTENT_STREAM_COST_FLOOR_BYTES / 4,
        ..InspectLimits::default()
    };
    let (text, _) = inspect_bytes_with_limits(&pdf, &starved);
    assert!(
        text.is_empty(),
        "zero-length streams must draw down the budget, got {text:?}"
    );
    let ample = InspectLimits {
        content_total_bytes: empties * PDF_CONTENT_STREAM_COST_FLOOR_BYTES * 4,
        ..InspectLimits::default()
    };
    let (text, _) = inspect_bytes_with_limits(&pdf, &ample);
    assert_eq!(
        text.iter().map(|i| i.text.as_str()).collect::<Vec<_>>(),
        ["Reached"]
    );
}
#[test]
fn limits_unresolvable_content_references_are_charged() {

    let mut doc = Document::with_version("1.5");
    let pages_id = doc.new_object_id();
    let resources_id = doc.add_object(dictionary(vec![
        ("Font", Object::from(dictionary(vec![
            ("F1", Object::from(dictionary(vec![
                ("Type", Object::from("Font")), ("Subtype", Object::from("Type1")), ("BaseFont", Object::from("Courier")),
            ]))),
        ]))),
    ]));
    let duds: usize = 200;
    let dud = doc.add_object(dictionary(vec![ ("Type", Object::from("ExampleNotAStream")) ]));
    let mut contents: Vec<Object> = vec![Object::Reference(dud); duds];
    contents.push(Object::Reference(doc.add_object(Stream::new(
        Dictionary::new(),
        b"BT /F1 12 Tf 1 0 0 1 10 800 Tm (Reached) Tj ET".to_vec(),
    ))));
    let page_id = doc.add_object(dictionary(vec![
        ("Type", Object::from("Page")),
        ("Parent", Object::from(pages_id)),
        ("Contents", Object::from(contents)),
        ("Resources", Object::from(resources_id)),
        ("MediaBox", Object::from(vec![
            Object::Integer(0), Object::Integer(0),
            Object::Integer(595), Object::Integer(842),
        ])),
    ]));
    doc.objects.insert(
        pages_id,
        Object::Dictionary(dictionary(vec![
            ("Type", Object::from("Pages")),
            ("Kids", Object::from(vec![Object::Reference(page_id)])),
            ("Count", Object::Integer(1)),
        ])),
    );
    let catalog_id = doc.add_object(dictionary(vec![ ("Type", Object::from("Catalog")), ("Pages", Object::from(pages_id)) ]));
    doc.trailer.set("Root", Object::Reference(catalog_id));
    let mut buf = Vec::new();
    doc.save_to(&mut buf).unwrap();

    let starved = InspectLimits {
        content_total_bytes: duds * PDF_CONTENT_STREAM_COST_FLOOR_BYTES / 4,
        ..InspectLimits::default()
    };
    let (text, _) = inspect_bytes_with_limits(&buf, &starved);
    assert!(
        text.is_empty(),
        "non-stream references must draw down the budget, got {text:?}"
    );

    let ample = InspectLimits {
        content_total_bytes: duds * PDF_CONTENT_STREAM_COST_FLOOR_BYTES * 4,
        ..InspectLimits::default()
    };
    let (text, _) = inspect_bytes_with_limits(&buf, &ample);
    assert_eq!(
        text.iter().map(|i| i.text.as_str()).collect::<Vec<_>>(),
        ["Reached"]
    );
}
#[test]
fn resources_origin_records_where_the_dictionary_lives() {

    let mut doc = Document::with_version("1.5");
    let pages_id = doc.new_object_id();
    let shared_resources = doc.add_object(dictionary(vec![ ("ProcSet", Object::from(vec![Object::from("PDF")])) ]));
    let inheriting = doc.add_object(dictionary(vec![
        ("Type", Object::from("Page")),
        ("Parent", Object::from(pages_id)),
    ]));
    let own_resources = doc.add_object(dictionary(vec![
        ("Type", Object::from("Page")),
        ("Parent", Object::from(pages_id)),
        ("Resources", Object::from(dictionary(vec![ ("ProcSet", Object::from(vec![Object::from("PDF")])) ]))),
    ]));
    let by_reference = doc.add_object(dictionary(vec![
        ("Type", Object::from("Page")),
        ("Parent", Object::from(pages_id)),
        ("Resources", Object::Reference(shared_resources)),
    ]));
    doc.objects.insert(
        pages_id,
        Object::Dictionary(dictionary(vec![
            ("Type", Object::from("Pages")),
            ("Kids", Object::from(vec![
                Object::Reference(inheriting),
                Object::Reference(own_resources),
                Object::Reference(by_reference),
            ])),
            ("Count", Object::Integer(3)),
            ("Resources", Object::from(dictionary(vec![ ("ProcSet", Object::from(vec![Object::from("Text")])) ]))),
        ])),
    );

    let (origin, _) = resolve_page_resources(&doc, inheriting).expect("inherited resources");
    assert_eq!(origin, ResourcesOrigin::DirectIn(pages_id));

    let (origin, _) = resolve_page_resources(&doc, own_resources).expect("own resources");
    assert_eq!(origin, ResourcesOrigin::DirectIn(own_resources));

    let (origin, _) = resolve_page_resources(&doc, by_reference).expect("referenced resources");
    assert_eq!(origin, ResourcesOrigin::Object(shared_resources));
}
#[test]
fn resources_cache_distinguishes_an_object_from_its_nested_dictionary() {

    let mut doc = Document::with_version("1.5");
    let pages_id = doc.new_object_id();
    let image_id = doc.add_object(Stream::new(
        dictionary(vec![
            ("Type", Object::from("XObject")), ("Subtype", Object::from("Image")),
            ("Width", Object::Integer(4)), ("Height", Object::Integer(4)),
            ("ColorSpace", Object::from("DeviceGray")), ("BitsPerComponent", Object::Integer(8)),
        ]),
        vec![0u8; 16],
    ));
    let content = b"q 50 0 0 50 0 0 cm /Im0 Do Q\n".to_vec();
    let content_a = doc.add_object(Stream::new(Dictionary::new(), content.clone()));
    let content_b = doc.add_object(Stream::new(Dictionary::new(), content));
    let points_at_pages_node = doc.add_object(dictionary(vec![
        ("Type", Object::from("Page")),
        ("Parent", Object::from(pages_id)),
        ("Resources", Object::Reference(pages_id)),
        ("Contents", Object::from(content_a)),
        ("MediaBox", Object::from(vec![
            Object::Integer(0), Object::Integer(0),
            Object::Integer(595), Object::Integer(842),
        ])),
    ]));
    let inheriting = doc.add_object(dictionary(vec![
        ("Type", Object::from("Page")),
        ("Parent", Object::from(pages_id)),
        ("Contents", Object::from(content_b)),
        ("MediaBox", Object::from(vec![
            Object::Integer(0), Object::Integer(0),
            Object::Integer(595), Object::Integer(842),
        ])),
    ]));
    doc.objects.insert(
        pages_id,
        Object::Dictionary(dictionary(vec![
            ("Type", Object::from("Pages")),
            ("Kids", Object::from(vec![
                Object::Reference(points_at_pages_node),
                Object::Reference(inheriting),
            ])),
            ("Count", Object::Integer(2)),
            ("Resources", Object::from(dictionary(vec![
                ("XObject", Object::from(dictionary(vec![ ("Im0", Object::Reference(image_id)) ]))),
            ]))),
        ])),
    );
    let catalog_id = doc.add_object(dictionary(vec![ ("Type", Object::from("Catalog")), ("Pages", Object::from(pages_id)) ]));
    doc.trailer.set("Root", Object::Reference(catalog_id));
    let mut buf = Vec::new();
    doc.save_to(&mut buf).unwrap();

    let result = inspect_bytes(&buf);
    let pages_with_images: Vec<u32> = result.images.iter().map(|i| i.page).collect();
    assert_eq!(
        pages_with_images,
        [2],
        "expected exactly page 2 to report an image, got {:?}",
        result.images
    );
}
#[test]
fn limits_encoded_bytes_are_charged_even_when_decoding_yields_nothing() {

    let encoded: usize = 64 * 1024;
    let mut doc = Document::with_version("1.5");
    let pages_id = doc.new_object_id();
    let resources_id = doc.add_object(dictionary(vec![
        ("Font", Object::from(dictionary(vec![
            ("F1", Object::from(dictionary(vec![
                ("Type", Object::from("Font")), ("Subtype", Object::from("Type1")), ("BaseFont", Object::from("Courier")),
            ]))),
        ]))),
    ]));
    let mut a85 = vec![b' '; encoded];
    a85.extend_from_slice(b"~>");
    let mut a85_stream = Stream::new(Dictionary::new(), a85);
    a85_stream.dict.set("Filter", "ASCII85Decode");
    assert_eq!(
        a85_stream.decompressed_content().ok().map(|d| d.len()),
        Some(0),
        "test relies on this stream decoding to nothing"
    );
    let contents = vec![
        Object::Reference(doc.add_object(a85_stream)),
        Object::Reference(doc.add_object(Stream::new(
            Dictionary::new(),
            b"BT /F1 12 Tf 1 0 0 1 10 800 Tm (Reached) Tj ET".to_vec(),
        ))),
    ];
    let page_id = doc.add_object(dictionary(vec![
        ("Type", Object::from("Page")),
        ("Parent", Object::from(pages_id)),
        ("Contents", Object::from(contents)),
        ("Resources", Object::from(resources_id)),
        ("MediaBox", Object::from(vec![
            Object::Integer(0), Object::Integer(0),
            Object::Integer(595), Object::Integer(842),
        ])),
    ]));
    doc.objects.insert(
        pages_id,
        Object::Dictionary(dictionary(vec![
            ("Type", Object::from("Pages")),
            ("Kids", Object::from(vec![Object::Reference(page_id)])),
            ("Count", Object::Integer(1)),
        ])),
    );
    let catalog_id = doc.add_object(dictionary(vec![ ("Type", Object::from("Catalog")), ("Pages", Object::from(pages_id)) ]));
    doc.trailer.set("Root", Object::Reference(catalog_id));
    let mut buf = Vec::new();
    doc.save_to(&mut buf).unwrap();
    let starved = InspectLimits {
        content_total_bytes: encoded / 4,
        ..InspectLimits::default()
    };
    let (text, _) = inspect_bytes_with_limits(&buf, &starved);
    assert!(
        text.is_empty(),
        "encoded bytes must draw down the budget, got {text:?}"
    );

    let ample = InspectLimits {
        content_total_bytes: encoded * 4,
        ..InspectLimits::default()
    };
    let (text, _) = inspect_bytes_with_limits(&buf, &ample);
    assert_eq!(
        text.iter().map(|i| i.text.as_str()).collect::<Vec<_>>(),
        ["Reached"]
    );
}
#[test]
fn xobjects_origin_follows_the_shared_dictionary_not_the_wrapper() {

    let mut doc = Document::with_version("1.5");
    let pages_id = doc.new_object_id();
    let image_id = doc.add_object(Stream::new(
        dictionary(vec![
            ("Type", Object::from("XObject")), ("Subtype", Object::from("Image")),
            ("Width", Object::Integer(4)), ("Height", Object::Integer(4)),
            ("ColorSpace", Object::from("DeviceGray")), ("BitsPerComponent", Object::Integer(8)),
        ]),
        vec![0u8; 16],
    ));
    let shared_xobjects = doc.add_object(dictionary(vec![ ("Im0", Object::Reference(image_id)) ]));
    let mut origins = Vec::new();
    let mut kids = Vec::new();
    for _ in 0..2 {
        let page = doc.add_object(dictionary(vec![
            ("Type", Object::from("Page")),
            ("Parent", Object::from(pages_id)),
            ("Resources", Object::from(dictionary(vec![ ("XObject", Object::Reference(shared_xobjects)) ]))),
        ]));
        kids.push(Object::Reference(page));
    }
    doc.objects.insert(
        pages_id,
        Object::Dictionary(dictionary(vec![
            ("Type", Object::from("Pages")),
            ("Kids", Object::from(kids.clone())),
            ("Count", Object::Integer(2)),
        ])),
    );
    for kid in &kids {
        let page_id = kid.as_reference().unwrap();
        let (res_origin, resources) = resolve_page_resources(&doc, page_id).expect("resources");
        assert_eq!(res_origin, ResourcesOrigin::DirectIn(page_id));
        origins.push(xobjects_origin(&doc, resources, res_origin));
    }
    assert_eq!(origins[0], XObjectsOrigin::Object(shared_xobjects));
    assert_eq!(origins[0], origins[1]);
}
#[test]
fn metadata_fields_are_clamped() {

    let long = "T".repeat(MAX_PDF_METADATA_FIELD_BYTES * 4);
    let multibyte = "あ".repeat(MAX_PDF_METADATA_FIELD_BYTES);
    let mut doc = Document::with_version("1.5");
    let pages_id = doc.new_object_id();
    doc.objects.insert(
        pages_id,
        Object::Dictionary(dictionary(vec![
            ("Type", Object::from("Pages")), ("Kids", Object::from(Vec::<Object>::new())), ("Count", Object::Integer(0)),
        ])),
    );
    let catalog_id = doc.add_object(dictionary(vec![ ("Type", Object::from("Catalog")), ("Pages", Object::from(pages_id)) ]));
    let info_id = doc.add_object(dictionary(vec![
        ("Title", Object::string_literal(long.as_str())),
        ("Author", Object::string_literal(multibyte.as_str())),
    ]));
    doc.trailer.set("Root", Object::Reference(catalog_id));
    doc.trailer.set("Info", Object::Reference(info_id));
    let mut buf = Vec::new();
    doc.save_to(&mut buf).unwrap();

    let result = inspect_bytes(&buf);
    let title = result.metadata.title.expect("title");
    assert_eq!(title.len(), MAX_PDF_METADATA_FIELD_BYTES);
    let author = result.metadata.author.expect("author");
    assert!(
        author.len() <= MAX_PDF_METADATA_FIELD_BYTES,
        "author {} bytes",
        author.len()
    );
    assert!(
        author.chars().all(|c| c != '\u{FFFD}'),
        "clamped mid-character"
    );
}
#[test]
fn shared_content_streams_are_decoded_once() {

    let encoded: usize = 32 * 1024;
    let refs: usize = 64;
    let mut doc = Document::with_version("1.5");
    let pages_id = doc.new_object_id();
    let resources_id = doc.add_object(dictionary(vec![
        ("Font", Object::from(dictionary(vec![
            ("F1", Object::from(dictionary(vec![
                ("Type", Object::from("Font")), ("Subtype", Object::from("Type1")), ("BaseFont", Object::from("Courier")),
            ]))),
        ]))),
    ]));
    let mut a85 = vec![b' '; encoded];
    a85.extend_from_slice(b"~>");
    let mut a85_stream = Stream::new(Dictionary::new(), a85);
    a85_stream.dict.set("Filter", "ASCII85Decode");
    let shared = doc.add_object(a85_stream);
    let contents: Vec<Object> = vec![Object::Reference(shared); refs];
    let page_id = doc.add_object(dictionary(vec![
        ("Type", Object::from("Page")),
        ("Parent", Object::from(pages_id)),
        ("Contents", Object::from(contents)),
        ("Resources", Object::from(resources_id)),
        ("MediaBox", Object::from(vec![
            Object::Integer(0), Object::Integer(0),
            Object::Integer(595), Object::Integer(842),
        ])),
    ]));
    doc.objects.insert(
        pages_id,
        Object::Dictionary(dictionary(vec![
            ("Type", Object::from("Pages")),
            ("Kids", Object::from(vec![Object::Reference(page_id)])),
            ("Count", Object::Integer(1)),
        ])),
    );
    let catalog_id = doc.add_object(dictionary(vec![ ("Type", Object::from("Catalog")), ("Pages", Object::from(pages_id)) ]));
    doc.trailer.set("Root", Object::Reference(catalog_id));
    let mut buf = Vec::new();
    doc.save_to(&mut buf).unwrap();
    let loaded = Document::load_mem(&buf).unwrap();
    let page = *loaded.get_pages().values().next().unwrap();
    let mut budget = encoded + refs * PDF_CONTENT_STREAM_COST_FLOOR_BYTES * 2;
    assert!(
        budget < encoded * refs,
        "budget must be too small for one decode per reference"
    );
    let mut cache = DecodedStreams::new();
    assert!(
        matches!(
            gather_page_content(&loaded, page, &mut budget, &mut cache),
            PageContent::Ready(_)
        ),
        "one decode plus per-reference copies must fit the budget"
    );
    assert_eq!(cache.len(), 1, "the shared stream must be cached once");
}
#[test]
fn limits_pages_without_content_are_charged_in_both_passes() {

    let empties: usize = 200;
    let mut doc = Document::with_version("1.5");
    let pages_id = doc.new_object_id();
    let mut kids = Vec::new();
    for _ in 0..empties {
        kids.push(Object::Reference(doc.add_object(dictionary(vec![
            ("Type", Object::from("Page")),
            ("Parent", Object::from(pages_id)),
            ("MediaBox", Object::from(vec![
                Object::Integer(0), Object::Integer(0),
                Object::Integer(595), Object::Integer(842),
            ])),
        ]))));
    }
    let image_id = doc.add_object(Stream::new(
        dictionary(vec![
            ("Type", Object::from("XObject")), ("Subtype", Object::from("Image")),
            ("Width", Object::Integer(4)), ("Height", Object::Integer(4)),
            ("ColorSpace", Object::from("DeviceGray")), ("BitsPerComponent", Object::Integer(8)),
        ]),
        vec![0u8; 16],
    ));
    let resources_id = doc.add_object(dictionary(vec![
        ("Font", Object::from(dictionary(vec![
            ("F1", Object::from(dictionary(vec![
                ("Type", Object::from("Font")), ("Subtype", Object::from("Type1")), ("BaseFont", Object::from("Courier")),
            ]))),
        ]))),
        ("XObject", Object::from(dictionary(vec![ ("Im0", Object::Reference(image_id)) ]))),
    ]));
    let content_id = doc.add_object(Stream::new(
        Dictionary::new(),
        b"BT /F1 12 Tf 1 0 0 1 10 800 Tm (Reached) Tj ET\nq 50 0 0 50 0 0 cm /Im0 Do Q\n"
            .to_vec(),
    ));
    kids.push(Object::Reference(doc.add_object(dictionary(vec![
        ("Type", Object::from("Page")),
        ("Parent", Object::from(pages_id)),
        ("Contents", Object::from(content_id)),
        ("Resources", Object::from(resources_id)),
        ("MediaBox", Object::from(vec![
            Object::Integer(0), Object::Integer(0),
            Object::Integer(595), Object::Integer(842),
        ])),
    ]))));
    let count = kids.len() as i64;
    doc.objects.insert(
        pages_id,
        Object::Dictionary(dictionary(vec![
            ("Type", Object::from("Pages")), ("Kids", Object::from(kids)), ("Count", Object::Integer(count)),
        ])),
    );
    let catalog_id = doc.add_object(dictionary(vec![ ("Type", Object::from("Catalog")), ("Pages", Object::from(pages_id)) ]));
    doc.trailer.set("Root", Object::Reference(catalog_id));
    let mut buf = Vec::new();
    doc.save_to(&mut buf).unwrap();

    let starved = InspectLimits {
        content_total_bytes: empties * PDF_CONTENT_STREAM_COST_FLOOR_BYTES / 4,
        ..InspectLimits::default()
    };
    let (text, images) = inspect_bytes_with_limits(&buf, &starved);
    assert!(
        text.is_empty(),
        "text pass must charge cheap pages, got {text:?}"
    );
    assert!(images.is_empty(), "image pass must charge cheap pages too");
    let (text, images) = inspect_bytes_with_limits(&buf, &InspectLimits::default());
    assert_eq!(
        text.iter().map(|i| i.text.as_str()).collect::<Vec<_>>(),
        ["Reached"]
    );
    assert_eq!(images.len(), 1);
}
#[test]
fn canonicalisation_matches_lopdf_dereference_limit() {

    let mut doc = Document::with_version("1.5");
    let real = doc.add_object(Stream::new(Dictionary::new(), b"BT ET".to_vec()));
    let mut chain = vec![real];
    for _ in 0..MAX_PDF_PARENT_DEPTH + 2 {
        let next = doc.add_object(Object::Reference(*chain.last().unwrap()));
        chain.push(next);
    }

    let mut accepted = 0usize;
    for (links, &id) in chain.iter().enumerate() {
        let canonical = canonical_object_id(&doc, id);
        let lopdf_reads_it = doc.get_object(id).is_ok();
        assert_eq!(
            canonical.is_some(),
            lopdf_reads_it,
            "{links}-link chain: canonicalised to {canonical:?} but get_object \
             {}; the two limits have drifted apart",
            if lopdf_reads_it {
                "succeeded"
            } else {
                "failed"
            },
        );
        if canonical.is_some() {
            assert_eq!(canonical, Some(real), "{links}-link chain resolved short");
            accepted += 1;
        }
    }
    assert_eq!(
        accepted,
        MAX_PDF_PARENT_DEPTH + 1,
        "expected chains of 0..={MAX_PDF_PARENT_DEPTH} links to resolve and \
         longer ones to be rejected",
    );
}
#[test]
fn xobjects_origin_canonicalises_reference_aliases() {

    let mut doc = Document::with_version("1.5");
    let pages_id = doc.new_object_id();
    let real = doc.add_object(dictionary(vec![ ("Im0", Object::Null) ]));
    let alias_a = doc.add_object(Object::Reference(real));
    let alias_b = doc.add_object(Object::Reference(real));
    let mut origins = Vec::new();
    for alias in [alias_a, alias_b, real] {
        let page = doc.add_object(dictionary(vec![
            ("Type", Object::from("Page")),
            ("Parent", Object::from(pages_id)),
            ("Resources", Object::from(dictionary(vec![ ("XObject", Object::Reference(alias)) ]))),
        ]));
        let (res_origin, resources) = resolve_page_resources(&doc, page).expect("resources");
        origins.push(xobjects_origin(&doc, resources, res_origin));
    }
    assert_eq!(origins[0], XObjectsOrigin::Object(real));
    assert_eq!(origins[0], origins[1]);
    assert_eq!(origins[0], origins[2]);
}
#[test]
fn direct_resources_origin_canonicalises_page_aliases() {

    let mut doc = Document::with_version("1.5");
    let pages_id = doc.new_object_id();
    let page_id = doc.add_object(dictionary(vec![
        ("Type", Object::from("Page")),
        ("Parent", Object::from(pages_id)),
        ("Resources", Object::from(dictionary(vec![ ("XObject", Object::from(dictionary(vec![ ("Im0", Object::Null) ]))) ]))),
    ]));
    let alias_a = doc.add_object(Object::Reference(page_id));
    let alias_b = doc.add_object(Object::Reference(page_id));

    let mut origins = Vec::new();
    for id in [alias_a, alias_b, page_id] {
        let (res_origin, resources) = resolve_page_resources(&doc, id).expect("resources");
        origins.push((res_origin, xobjects_origin(&doc, resources, res_origin)));
    }
    assert_eq!(
        origins[0].0,
        ResourcesOrigin::DirectIn(page_id),
        "origin must name the page the alias resolves to, not the alias",
    );
    assert_eq!(origins[0], origins[1]);
    assert_eq!(origins[0], origins[2]);
    assert_eq!(
        origins[0].1,
        XObjectsOrigin::DirectIn(ResourcesOrigin::DirectIn(page_id)),
    );
}
#[test]
fn content_stream_aliases_share_one_cache_entry() {

    let encoded: usize = 32 * 1024;
    let aliases: usize = 32;
    let mut doc = Document::with_version("1.5");
    let pages_id = doc.new_object_id();
    let resources_id = doc.add_object(dictionary(vec![
        ("Font", Object::from(dictionary(vec![
            ("F1", Object::from(dictionary(vec![
                ("Type", Object::from("Font")), ("Subtype", Object::from("Type1")), ("BaseFont", Object::from("Courier")),
            ]))),
        ]))),
    ]));
    let mut a85 = vec![b' '; encoded];
    a85.extend_from_slice(b"~>");
    let mut a85_stream = Stream::new(Dictionary::new(), a85);
    a85_stream.dict.set("Filter", "ASCII85Decode");
    let real = doc.add_object(a85_stream);
    let contents: Vec<Object> = (0..aliases)
        .map(|_| Object::Reference(doc.add_object(Object::Reference(real))))
        .collect();
    let page_id = doc.add_object(dictionary(vec![
        ("Type", Object::from("Page")),
        ("Parent", Object::from(pages_id)),
        ("Contents", Object::from(contents)),
        ("Resources", Object::from(resources_id)),
        ("MediaBox", Object::from(vec![
            Object::Integer(0), Object::Integer(0),
            Object::Integer(595), Object::Integer(842),
        ])),
    ]));
    doc.objects.insert(
        pages_id,
        Object::Dictionary(dictionary(vec![
            ("Type", Object::from("Pages")),
            ("Kids", Object::from(vec![Object::Reference(page_id)])),
            ("Count", Object::Integer(1)),
        ])),
    );
    let catalog_id = doc.add_object(dictionary(vec![ ("Type", Object::from("Catalog")), ("Pages", Object::from(pages_id)) ]));
    doc.trailer.set("Root", Object::Reference(catalog_id));
    let mut buf = Vec::new();
    doc.save_to(&mut buf).unwrap();
    let loaded = Document::load_mem(&buf).unwrap();
    let page = *loaded.get_pages().values().next().unwrap();

    let mut budget = encoded + aliases * PDF_CONTENT_STREAM_COST_FLOOR_BYTES * 3;
    assert!(
        budget < encoded * aliases,
        "budget must forbid one decode per alias"
    );
    let mut cache = DecodedStreams::new();
    assert!(matches!(
        gather_page_content(&loaded, page, &mut budget, &mut cache),
        PageContent::Ready(_)
    ));
    assert_eq!(cache.len(), 1, "all aliases must share one cache entry");
}
#[test]
fn metadata_prefix_is_bounded_before_decoding() {
    let wide = vec![0xFFu8; MAX_PDF_METADATA_FIELD_BYTES * 8];
    let prefix = metadata_prefix(&wide);
    assert_eq!(prefix.len(), MAX_PDF_METADATA_FIELD_BYTES);
    assert!(decode_pdf_string(prefix).len() <= MAX_PDF_METADATA_FIELD_BYTES * 2);
    let mut utf16 = vec![0xFE, 0xFF];
    utf16.extend(std::iter::repeat_n([0x00, 0x41], MAX_PDF_METADATA_FIELD_BYTES).flatten());
    let prefix = metadata_prefix(&utf16);
    assert_eq!((prefix.len() - 2) % 2, 0, "UTF-16 code unit split");
    assert!(!decode_pdf_string(prefix).contains('\u{FFFD}'));
    assert_eq!(metadata_prefix(b"Title"), b"Title");
}
#[test]
fn xobject_scans_are_charged_per_entry() {

    let entries: usize = 500;
    let mut doc = Document::with_version("1.5");
    let pages_id = doc.new_object_id();
    let mut xobjects = Dictionary::new();
    for i in 0..entries {
        let form = doc.add_object(Stream::new(
            dictionary(vec![ ("Type", Object::from("XObject")), ("Subtype", Object::from("Form")) ]),
            Vec::new(),
        ));
        xobjects.set(format!("X{i}"), Object::Reference(form));
    }
    let resources_id = doc.add_object(dictionary(vec![ ("XObject", Object::from(xobjects)) ]));
    let mut kids = Vec::new();
    for _ in 0..8 {
        kids.push(Object::Reference(doc.add_object(dictionary(vec![
            ("Type", Object::from("Page")),
            ("Parent", Object::from(pages_id)),
            ("Resources", Object::Reference(resources_id)),
            ("MediaBox", Object::from(vec![
                Object::Integer(0), Object::Integer(0),
                Object::Integer(595), Object::Integer(842),
            ])),
        ]))));
    }
    let count = kids.len() as i64;
    doc.objects.insert(
        pages_id,
        Object::Dictionary(dictionary(vec![
            ("Type", Object::from("Pages")), ("Kids", Object::from(kids)), ("Count", Object::Integer(count)),
        ])),
    );
    let catalog_id = doc.add_object(dictionary(vec![ ("Type", Object::from("Catalog")), ("Pages", Object::from(pages_id)) ]));
    doc.trailer.set("Root", Object::Reference(catalog_id));
    let mut buf = Vec::new();
    doc.save_to(&mut buf).unwrap();
    let starved = InspectLimits {
        content_total_bytes: entries * PDF_CONTENT_STREAM_COST_FLOOR_BYTES / 2,
        ..InspectLimits::default()
    };
    let (_, images) = inspect_bytes_with_limits(&buf, &starved);
    assert!(images.is_empty());
    let doc = Document::load_mem(&buf).unwrap();
    let page = *doc.get_pages().values().next().unwrap();
    let (_, resources) = resolve_page_resources(&doc, page).expect("resources");
    let mut budget = entries / 4 * PDF_CONTENT_STREAM_COST_FLOOR_BYTES;
    let (_, within_budget) = collect_image_xobjects(&doc, resources, &mut budget);
    assert!(!within_budget, "an over-budget scan must report exhaustion");
    assert_eq!(budget, 0);
    let (_, images) = inspect_bytes_with_limits(&buf, &InspectLimits::default());
    assert!(images.is_empty(), "non-image XObjects yield no placements");
}
#[test]
fn limits_item_budget_stops_extraction() {
    let pages: usize = 40;
    let pdf = limits_fixture(pages, 0);

    let limits = InspectLimits {
        items: 5,
        ..InspectLimits::default()
    };
    let (text, images) = inspect_bytes_with_limits(&pdf, &limits);
    assert_eq!(text.len(), 5);
    assert_eq!(images.len(), 5);
}
#[test]
fn skipped_pages_are_charged_against_the_content_budget() {
    let mut budget = 4096;
    let over_page = {
        let mut p = Vec::new();
        while p.len() <= MAX_PDF_CONTENT_BYTES {
            p.extend_from_slice(b"(A) Tj\n");
        }
        p
    };
    let pdf = make_pdf_with_shared_content_stream(1, over_page, false);
    let doc = Document::load_mem(&pdf).unwrap();
    let page_id = *doc.get_pages().values().next().unwrap();
    assert!(matches!(
        gather_page_content(&doc, page_id, &mut budget, &mut DecodedStreams::new()),
        PageContent::Exhausted
    ));
    assert_eq!(budget, 0);
}
#[test]
fn page_content_skips_entries_that_are_not_streams() {

    let mut doc = Document::with_version("1.5");
    let pages_id = doc.new_object_id();
    let resources_id = doc.add_object(dictionary(vec![
        ("Font", Object::from(dictionary(vec![
            ("F1", Object::from(dictionary(vec![
                ("Type", Object::from("Font")), ("Subtype", Object::from("Type1")), ("BaseFont", Object::from("Courier")),
            ]))),
        ]))),
    ]));
    let not_a_stream = doc.add_object(dictionary(vec![ ("Type", Object::from("ExampleNotAStream")) ]));
    let real = doc.add_object(Stream::new(
        Dictionary::new(),
        b"BT /F1 12 Tf 1 0 0 1 10 800 Tm (Survivor) Tj ET".to_vec(),
    ));
    let page_id = doc.add_object(dictionary(vec![
        ("Type", Object::from("Page")),
        ("Parent", Object::from(pages_id)),
        ("Contents", Object::from(vec![Object::Reference(not_a_stream), Object::Reference(real)])),
        ("Resources", Object::from(resources_id)),
        ("MediaBox", Object::from(vec![
            Object::Integer(0), Object::Integer(0),
            Object::Integer(595), Object::Integer(842),
        ])),
    ]));
    doc.objects.insert(
        pages_id,
        Object::Dictionary(dictionary(vec![
            ("Type", Object::from("Pages")),
            ("Kids", Object::from(vec![Object::Reference(page_id)])),
            ("Count", Object::Integer(1)),
        ])),
    );
    let catalog_id = doc.add_object(dictionary(vec![ ("Type", Object::from("Catalog")), ("Pages", Object::from(pages_id)) ]));
    doc.trailer.set("Root", Object::Reference(catalog_id));
    let mut buf = Vec::new();
    doc.save_to(&mut buf).unwrap();

    let result = inspect_bytes(&buf);
    let texts: Vec<&str> = result.text_items.iter().map(|i| i.text.as_str()).collect();
    assert_eq!(texts, ["Survivor"]);
}
#[test]
fn page_content_falls_back_to_raw_bytes_when_decoding_fails() {

    let mut doc = Document::with_version("1.5");
    let pages_id = doc.new_object_id();
    let resources_id = doc.add_object(dictionary(vec![
        ("Font", Object::from(dictionary(vec![
            ("F1", Object::from(dictionary(vec![
                ("Type", Object::from("Font")), ("Subtype", Object::from("Type1")), ("BaseFont", Object::from("Courier")),
            ]))),
        ]))),
    ]));
    let mut stream = Stream::new(
        Dictionary::new(),
        b"BT /F1 12 Tf 1 0 0 1 10 800 Tm (Undecoded) Tj ET".to_vec(),
    );
    stream.dict.set("Filter", "Crypt");
    assert!(
        stream.decompressed_content().is_err(),
        "test relies on this filter being undecodable by lopdf"
    );
    let content_id = doc.add_object(stream);
    let page_id = doc.add_object(dictionary(vec![
        ("Type", Object::from("Page")),
        ("Parent", Object::from(pages_id)),
        ("Contents", Object::from(content_id)),
        ("Resources", Object::from(resources_id)),
        ("MediaBox", Object::from(vec![
            Object::Integer(0), Object::Integer(0),
            Object::Integer(595), Object::Integer(842),
        ])),
    ]));
    doc.objects.insert(
        pages_id,
        Object::Dictionary(dictionary(vec![
            ("Type", Object::from("Pages")),
            ("Kids", Object::from(vec![Object::Reference(page_id)])),
            ("Count", Object::Integer(1)),
        ])),
    );
    let catalog_id = doc.add_object(dictionary(vec![ ("Type", Object::from("Catalog")), ("Pages", Object::from(pages_id)) ]));
    doc.trailer.set("Root", Object::Reference(catalog_id));
    let mut buf = Vec::new();
    doc.save_to(&mut buf).unwrap();

    let result = inspect_bytes(&buf);
    let texts: Vec<&str> = result.text_items.iter().map(|i| i.text.as_str()).collect();
    assert_eq!(texts, ["Undecoded"]);
}

/// A document of pages with contents and an information dictionary.
fn document_with_info(contents: Vec<Vec<u8>>, info: Dictionary) -> Document {
    let mut doc = Document::load_mem(&make_pdf_with_raw_contents(contents)).unwrap();
    let info_id = doc.add_object(info);
    doc.trailer.set("Info", Object::Reference(info_id));
    doc
}

#[test]
fn inspect_page_count() {
    let result = inspect_bytes(&make_pdf_with_raw_contents(vec![b"BT (Hello) Tj ET".to_vec()]));
    assert_eq!(result.pages, 1);
}

#[test]
fn inspect_multi_page_pdf() {
    let pages = vec![b"BT (Page one) Tj ET".to_vec(), b"BT (Page two) Tj ET".to_vec()];
    let result = inspect_bytes(&make_pdf_with_raw_contents(pages));
    assert_eq!(result.pages, 2);
    let pages: Vec<u32> = result.text_items.iter().map(|i| i.page).collect();
    assert_eq!(pages, [1, 2]);
}

#[test]
fn inspect_metadata_all_fields() {
    let info = dictionary(vec![
        ("Title", Object::string_literal("My Title")),
        ("Author", Object::string_literal("Alice")),
        ("Creator", Object::string_literal("TestApp")),
        ("CreationDate", Object::string_literal("D:20240102030405Z")),
        ("ModDate", Object::string_literal("D:20250102030405Z")),
    ]);
    let result = inspect(&document_with_info(vec![Vec::new()], info));
    assert_eq!(result.metadata.title.as_deref(), Some("My Title"));
    assert_eq!(result.metadata.author.as_deref(), Some("Alice"));
    assert_eq!(result.metadata.creator.as_deref(), Some("TestApp"));
    assert_eq!(result.metadata.created_at.as_deref(), Some("D:20240102030405Z"));
    assert_eq!(result.metadata.modified_at.as_deref(), Some("D:20250102030405Z"));
}

#[test]
fn inspect_metadata_title() {
    let info = dictionary(vec![("Title", Object::string_literal("Test Title"))]);
    let result = inspect(&document_with_info(vec![Vec::new()], info));
    assert_eq!(result.metadata.title.as_deref(), Some("Test Title"));
    assert_eq!(result.metadata.author, None);
}

#[test]
fn inspect_text_item_fields() {
    let result = inspect_bytes(&make_pdf_with_raw_content(b"BT /F1 9 Tf (Hello) Tj ET".to_vec()));
    let item = result.text_items.first().unwrap();
    assert_eq!(item.page, 1);
    assert_eq!(item.text, "Hello");
    assert_eq!(item.font, "F1");
}

#[test]
fn inspect_text_items_non_empty() {
    let result = inspect_bytes(&make_pdf_with_raw_content(b"BT [(Hello) -250 (World)] TJ ET".to_vec()));
    assert!(!result.text_items.is_empty(), "expected text items");
    assert_eq!(result.text_items[0].text, "HelloWorld");
    assert_eq!(result.text_items[0].font, "unknown");
}

#[test]
fn inspect_image_embedded() {
    let content = b"q 50 0 0 50 10 20 cm /Im0 Do Q\n".to_vec();
    let result = inspect_bytes(&make_pdf_with_image_and_raw_content(content));
    assert!(!result.images.is_empty(), "expected at least one image");
    let img = &result.images[0];
    assert_eq!(img.page, 1);
    assert_eq!((img.x, img.y), (10.0, 20.0));
    assert!(img.width > 0.0, "image width should be positive");
    assert!(img.height > 0.0, "image height should be positive");
}

#[test]
fn blank_texts_are_not_reported() {
    let result = inspect_bytes(&make_pdf_with_raw_content(b"BT ( ) Tj () Tj [(\t) 3] TJ (x) Tj ET".to_vec()));
    assert_eq!(result.text_items.len(), 1);
}

#[test]
fn a_document_without_pages_is_read() {
    let doc = Document::new();
    let result = inspect(&doc);
    assert_eq!(result.pages, 0);
    assert!(result.text_items.is_empty());
    assert!(result.images.is_empty());
}

#[test]
fn claimed_page_counts_do_not_matter() {
    let mut doc = Document::load_mem(&make_pdf_with_raw_contents(vec![b"BT (P) Tj ET".to_vec()])).unwrap();
    let root = doc.trailer.get(b"Root").unwrap().as_reference().unwrap();
    let pages = doc.get_dictionary(root).unwrap().get(b"Pages").unwrap().as_reference().unwrap();
    let child = dictionary(vec![("Type", Object::from("Pages")), ("Count", Object::Integer(i64::MAX))]);
    for _ in 0..3 {
        let id = doc.add_object(child.clone());
        let kids = doc.get_object_mut(pages).unwrap().as_dict_mut().unwrap().get_mut(b"Kids").unwrap();
        kids.as_array_mut().unwrap().push(Object::Reference(id));
    }
    let result = inspect(&doc);
    assert_eq!(result.pages, 1);
    assert_eq!(placed_texts(result.text_items).len(), 1);
}

#[test]
fn the_font_comes_back_with_the_state() {
    let content = b"BT /F1 10 Tf q /F2 20 Tf (in) Tj Q (out) Tj ET".to_vec();
    let doc = Document::load_mem(&make_pdf_with_raw_content(content)).unwrap();
    let mut fonts = Vec::new();
    for step in extract_text_items(&doc, &InspectLimits::default()) {
        if let TextStep::Show(item) = step {
            fonts.push((item.text, item.font, float(item.font_size)));
        }
    }
    assert_eq!(
        fonts,
        [("in".to_string(), "F2".to_string(), 20.0), ("out".to_string(), "F1".to_string(), 10.0)]
    );
}

#[test]
fn content_is_that_of_the_pages_streams() {
    let streams = vec![b"q".to_vec(), Vec::new(), b"Q".to_vec()];
    let doc = Document::load_mem(&make_pdf_with_multiple_content_streams(streams)).unwrap();
    let page = *doc.get_pages().values().next().unwrap();
    let mut budget = 1_000_000;
    let mut cache = DecodedStreams::new();
    match gather_page_content(&doc, page, &mut budget, &mut cache) {
        PageContent::Ready(bytes) => assert_eq!(bytes, b"q\n\nQ\n"),
        _ => panic!("the page is within its budget"),
    }
    assert_eq!(cache.len(), 3);
    let mut again = 1_000_000;
    assert!(matches!(gather_page_content(&doc, page, &mut again, &mut cache), PageContent::Ready(_)));
    assert_eq!(cache.len(), 3);
}

#[test]
fn texts_are_clamped_at_characters() {
    assert_eq!(clamp_str_bytes("abc", 5), "abc");
    assert_eq!(clamp_str_bytes("abc", 2), "ab");
    assert_eq!(clamp_str_bytes("a\u{e4}b", 2), "a");
    assert_eq!(clamp_str_bytes("a\u{e4}b", 3), "a\u{e4}");
    assert_eq!(clamp_str_bytes("\u{1f600}", 3), "");
}

#[test]
fn utf16_replaces_lone_surrogates() {
    assert_eq!(decode_pdf_string(&[0xFE, 0xFF, 0xD8, 0x3D, 0xDE, 0x00]), "\u{1f600}");
    assert_eq!(decode_pdf_string(&[0xFE, 0xFF, 0xD8, 0x3D, 0x00, 0x41]), "\u{fffd}A");
    assert_eq!(decode_pdf_string(&[0xFE, 0xFF, 0xDE, 0x00]), "\u{fffd}");
    assert_eq!(decode_pdf_string(&[0xE4, 0x41]), "\u{e4}A");
}

#[test]
fn names_are_read_as_text() {
    assert_eq!(obj_as_name_str(&Object::Name(b"F1".to_vec())), Some("F1"));
    assert_eq!(obj_as_name_str(&Object::Name(vec![0xFF])), None);
    assert_eq!(obj_as_name_str(&Object::Integer(1)), None);
}

#[test]
fn images_are_the_same_under_any_sufficient_budget() {
    let pdf = make_pdf_with_image_and_raw_content(b"/Im0 Do\n".to_vec());
    let doc = Document::load_mem(&pdf).unwrap();
    let page = *doc.get_pages().values().next().unwrap();
    let (origin, resources) = resolve_page_resources(&doc, page).unwrap();
    assert!(matches!(origin, ResourcesOrigin::Object(_)));
    for mut budget in [2 * PDF_CONTENT_STREAM_COST_FLOOR_BYTES, 100 * PDF_CONTENT_STREAM_COST_FLOOR_BYTES] {
        let (images, within_budget) = collect_image_xobjects(&doc, resources, &mut budget);
        assert!(within_budget);
        let image = images.get("Im0").unwrap();
        assert_eq!((image.width_px, image.height_px), (4, 4));
        assert_eq!(image.format, "unknown");
    }
}

fn operation(operator: &str, operands: Vec<Operand>) -> PageOperation {
    PageOperation { operator: operator.to_string(), operands }
}

#[test]
fn operations_show_their_text() {
    let ops = vec![
        operation("BT", vec![]),
        operation("Tf", vec![Operand::Name(b"F1".to_vec()), Operand::Number(PdfNumber::Integer(9))]),
        operation("Tf", vec![Operand::Name(b"F2".to_vec())]),
        operation("TD", vec![Operand::Number(PdfNumber::Integer(1)), Operand::Other]),
        operation("Tj", vec![Operand::Text(b"a".to_vec())]),
        operation("Tj", vec![Operand::Number(PdfNumber::Integer(4))]),
        operation("TJ", vec![Operand::Texts(vec![b"b".to_vec(), b"c".to_vec()])]),
        operation("Tj", vec![Operand::Text(b" ".to_vec())]),
        operation("??", vec![Operand::Other]),
    ];
    let steps = text_of_operations(3, &ops, &InspectLimits::default());
    assert_eq!(steps.len(), 5);
    assert!(matches!(steps[0], TextStep::Geometry(GeometryStep::NewPage)));
    assert!(matches!(steps[1], TextStep::Geometry(GeometryStep::BeginText)));
    assert!(matches!(
        steps[2],
        TextStep::Geometry(GeometryStep::Move {
            dx: PdfNumber::Integer(1),
            dy: PdfNumber::Integer(0),
            sets_leading: true
        })
    ));
    let texts: Vec<(u32, &str, &str)> = steps
        .iter()
        .filter_map(|step| match step {
            TextStep::Show(item) => Some((item.page, item.text.as_str(), item.font.as_str())),
            TextStep::Geometry(_) => None,
        })
        .collect();
    assert_eq!(texts, [(3, "a", "F1"), (3, "bc", "F1")]);
    let one = InspectLimits { items: 1, ..InspectLimits::default() };
    assert_eq!(text_of_operations(3, &ops, &one).len(), 4);
}

#[test]
fn operations_place_their_images() {
    let mut images = ImageXObjects::new();
    let image = ImageXObject { format: "jpeg".to_string(), width_px: 3, height_px: 5 };
    images.insert("Im0".to_string(), image);
    let ops = vec![
        operation("Q", vec![]),
        operation("q", vec![]),
        operation("Do", vec![Operand::Name(b"Im0".to_vec())]),
        operation("Do", vec![Operand::Name(b"Im1".to_vec())]),
        operation("Do", vec![Operand::Text(b"Im0".to_vec())]),
        operation("Q", vec![]),
    ];
    let steps = images_of_operations(1, &images, &ops, &InspectLimits::default());
    assert_eq!(steps.len(), 4);
    assert!(matches!(steps[1], ImageStep::Geometry(GeometryStep::Save)));
    match &steps[2] {
        ImageStep::Place(item) => assert_eq!((item.page, item.width_px, item.height_px), (1, 3, 5)),
        ImageStep::Geometry(_) => panic!("an image is placed"),
    }
    assert!(matches!(steps[3], ImageStep::Geometry(GeometryStep::Restore)));
}

#[test]
fn pages_beyond_the_budget_make_no_difference() {
    let paid: usize = 10;
    let limits = InspectLimits {
        content_total_bytes: PDF_CONTENT_STREAM_COST_FLOOR_BYTES * paid,
        ..InspectLimits::default()
    };
    let (few_texts, few_images) = inspect_bytes_with_limits(&limits_fixture(paid + 1, 0), &limits);
    let (many_texts, many_images) = inspect_bytes_with_limits(&limits_fixture(40, 0), &limits);
    assert!(!few_texts.is_empty() && few_texts.len() <= paid);
    assert_eq!(format!("{few_texts:?}"), format!("{many_texts:?}"));
    assert_eq!(format!("{few_images:?}"), format!("{many_images:?}"));
}

#[test]
fn steps_are_bounded_by_the_work() {
    let (pages, saves) = (4, 50);
    let doc = Document::load_mem(&limits_fixture(pages, saves)).unwrap();
    let decoded = pages * (saves + 8);
    let texts = extract_text_items(&doc, &InspectLimits::default());
    let images = extract_image_items(&doc, &InspectLimits::default());
    assert!(texts.len() > pages * saves && texts.len() <= pages + decoded, "{}", texts.len());
    assert!(images.len() > pages * saves && images.len() <= pages + decoded, "{}", images.len());

    let few = InspectLimits { operations: saves, ..InspectLimits::default() };
    assert!(extract_text_items(&doc, &few).len() <= 1 + saves + 8);
}

#[test]
fn inspected_documents_compare() {
    let pdf = limits_fixture(2, 3);
    let doc = Document::load_mem(&pdf).unwrap();
    let same = Document::load_mem(&pdf).unwrap();
    let longer = Document::load_mem(&limits_fixture(3, 3)).unwrap();
    assert_eq!(inspect(&doc), inspect(&same));
    assert_ne!(inspect(&doc), inspect(&longer));
}
