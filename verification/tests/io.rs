use kernel::io::serial::{check_loopback, is_transmit_empty, SerialError, LOOPBACK_PROBE, PORT};
use kernel::io::vga::{
    get_rendered_char, FrameBufferInfo, PixelWrite, PrintAction, VGAWriter, BG_COLOR,
    CHAR_HEIGHT, CHAR_SPACING, CHAR_WIDTH, HORIZONTAL_BORDER_PADDING, LINE_SPACING, UNKNOWN_CHAR,
    VERTICAL_BORDER_PADDING,
};
use noto_sans_mono_bitmap::{get_raster, get_raster_width, FontWeight, RasterHeight};

fn font_raster(c: char) -> Vec<Vec<u8>> {
    let pixels = get_raster(c, FontWeight::Regular, RasterHeight::Size16).unwrap();
    pixels.raster().iter().map(|row| row.to_vec()).collect()
}

fn screen() -> FrameBufferInfo {
    FrameBufferInfo {
        byte_len: 640 * 480 * 3,
        width: 640,
        height: 480,
        bytes_per_pixel: 3,
        stride: 640,
    }
}

#[test]
fn serial_constants() {
    assert_eq!(PORT, 0x3f8);
    assert_eq!(LOOPBACK_PROBE, 0xAE);
}

#[test]
fn transmit_buffer_is_empty_when_bit_five_is_set() {
    assert!(is_transmit_empty(0x20));
    assert!(is_transmit_empty(0xFF));
    assert!(!is_transmit_empty(0x00));
    assert!(!is_transmit_empty(0xDF));
}

#[test]
fn loopback_passes_on_the_probe_alone() {
    assert_eq!(check_loopback(0xAE), Ok(()));
    assert_eq!(check_loopback(0x00), Err(SerialError::InitFailed));
    assert_eq!(check_loopback(0xAF), Err(SerialError::InitFailed));
}

#[test]
fn layout_constants() {
    assert_eq!(BG_COLOR, 0);
    assert_eq!(CHAR_HEIGHT, 16);
    assert_eq!(CHAR_WIDTH, 7);
    assert_eq!(LINE_SPACING, 2);
    assert_eq!(HORIZONTAL_BORDER_PADDING, 30);
    assert_eq!(VERTICAL_BORDER_PADDING, 30);
    assert_eq!(CHAR_SPACING, 0);
    assert_eq!(UNKNOWN_CHAR, ' ');
}

#[test]
fn cell_is_that_of_the_font() {
    assert_eq!(CHAR_HEIGHT, RasterHeight::Size16.val());
    assert_eq!(CHAR_WIDTH, get_raster_width(FontWeight::Regular, RasterHeight::Size16));
    let pixels = get_raster('W', FontWeight::Regular, RasterHeight::Size16).unwrap();
    assert_eq!(pixels.width(), CHAR_WIDTH);
    assert_eq!(pixels.height(), CHAR_HEIGHT);
}

#[test]
fn rendered_char_is_the_raster_of_the_font() {
    for c in ['A', 'g', '#', ' ', '~'] {
        assert_eq!(get_rendered_char(c), Some(font_raster(c)));
    }
    assert_ne!(get_rendered_char('A'), get_rendered_char('B'));
    let raster = get_rendered_char('A').unwrap();
    assert_eq!(raster.len(), 16);
    assert!(raster.iter().all(|row| row.len() == 7));
    assert!(raster.iter().any(|row| row.iter().any(|pixel| *pixel != 0)));
}

#[test]
fn unknown_char_is_drawn_as_a_blank() {
    assert!(get_raster('\u{1F600}', FontWeight::Regular, RasterHeight::Size16).is_none());
    assert_eq!(get_rendered_char('\u{1F600}'), Some(font_raster(' ')));
}

#[test]
fn drawing_lists_every_pixel_row_after_row() {
    let writer = VGAWriter::init(screen());
    let raster = vec![vec![1u8, 2, 3], vec![], vec![4u8]];
    assert_eq!(
        writer.write_rendered_char(&raster, 10, 20),
        Some(vec![
            PixelWrite { offset: (20 * 640 + 10) * 3, intensity: 1 },
            PixelWrite { offset: (20 * 640 + 11) * 3, intensity: 2 },
            PixelWrite { offset: (20 * 640 + 12) * 3, intensity: 3 },
            PixelWrite { offset: (22 * 640 + 10) * 3, intensity: 4 },
        ])
    );
    assert_eq!(writer.write_rendered_char(&Vec::new(), 10, 20), Some(Vec::new()));
}

#[test]
fn drawing_past_the_buffer_is_refused() {
    let writer = VGAWriter::init(screen());
    let raster = vec![vec![1u8, 2, 3], vec![4u8]];
    assert_eq!(writer.write_rendered_char(&raster, 10, 479), None);
    assert_eq!(writer.write_rendered_char(&raster, usize::MAX - 1, 0), None);
    assert_eq!(writer.write_rendered_char(&raster, 0, usize::MAX), None);
    assert!(writer.write_rendered_char(&raster, 10, 478).is_some());
    assert_eq!(writer.draw_char('A', 636, 470), None);
}

#[test]
fn drawn_char_has_the_intensities_of_the_font() {
    let writer = VGAWriter::init(screen());
    let writes = writer.draw_char('A', 30, 30).unwrap();
    let raster = font_raster('A');
    assert_eq!(writes.len(), 16 * 7);
    for (yi, row) in raster.iter().enumerate() {
        for (xi, pixel) in row.iter().enumerate() {
            let write = writes[yi * 7 + xi];
            assert_eq!(write.intensity, *pixel);
            assert_eq!(write.offset, ((30 + yi) * 640 + 30 + xi) * 3);
        }
    }
    assert_eq!(writer.draw_char('A', 30, 30), writer.write_rendered_char(&raster, 30, 30));
}

#[test]
fn writer_starts_in_the_upper_left_corner() {
    let writer = VGAWriter::init(screen());
    assert_eq!(writer, VGAWriter { info: screen(), cur_x: 30, cur_y: 30 });
}

#[test]
fn characters_advance_the_cursor() {
    let mut writer = VGAWriter::init(screen());
    assert_eq!(writer.print_char('a'), PrintAction::Draw { clear: false, x: 30, y: 30 });
    assert_eq!(writer.print_char('b'), PrintAction::Draw { clear: false, x: 37, y: 30 });
    assert_eq!((writer.cur_x, writer.cur_y), (44, 30));
}

#[test]
fn newline_and_carriage_return_draw_nothing() {
    let mut writer = VGAWriter::init(screen());
    writer.print_char('a');
    assert_eq!(writer.print_char('\n'), PrintAction::Moved);
    assert_eq!((writer.cur_x, writer.cur_y), (30, 48));
    writer.print_char('a');
    assert_eq!(writer.print_char('\r'), PrintAction::Moved);
    assert_eq!((writer.cur_x, writer.cur_y), (30, 48));
    writer.newline();
    assert_eq!((writer.cur_x, writer.cur_y), (30, 66));
    writer.cur_x = 100;
    writer.carriage_return();
    assert_eq!((writer.cur_x, writer.cur_y), (30, 66));
}

#[test]
fn character_at_the_right_border_goes_to_the_next_line() {
    let mut writer = VGAWriter::init(screen());
    writer.cur_x = 603;
    assert_eq!(writer.print_char('a'), PrintAction::Draw { clear: false, x: 603, y: 30 });
    assert_eq!(writer.cur_x, 610);
    assert_eq!(writer.print_char('b'), PrintAction::Draw { clear: false, x: 30, y: 48 });
    assert_eq!((writer.cur_x, writer.cur_y), (37, 48));
}

#[test]
fn character_at_the_bottom_border_clears_the_screen() {
    let mut writer = VGAWriter::init(screen());
    writer.cur_y = 434;
    assert_eq!(writer.print_char('a'), PrintAction::Draw { clear: false, x: 30, y: 434 });
    writer.cur_y = 435;
    assert_eq!(writer.print_char('a'), PrintAction::Draw { clear: true, x: 30, y: 30 });
    assert_eq!((writer.cur_x, writer.cur_y), (37, 30));
    // A wrap onto a line that does not fit clears as well.
    writer.cur_x = 610;
    writer.cur_y = 420;
    assert_eq!(writer.print_char('a'), PrintAction::Draw { clear: true, x: 30, y: 30 });
}

#[test]
fn clear_puts_the_cursor_back() {
    let mut writer = VGAWriter::init(screen());
    writer.print_char('a');
    writer.print_char('\n');
    writer.clear();
    assert_eq!(writer, VGAWriter { info: screen(), cur_x: 30, cur_y: 30 });
}

#[test]
fn pixels_are_three_bytes_in_lines_of_the_stride() {
    let mut info = screen();
    info.stride = 700;
    info.byte_len = 700 * 480 * 3;
    let writer = VGAWriter::init(info);
    assert_eq!(writer.write_pixel(0, 0), Some(0));
    assert_eq!(writer.write_pixel(5, 0), Some(15));
    assert_eq!(writer.write_pixel(5, 2), Some((2 * 700 + 5) * 3));
    assert_eq!(writer.write_pixel(699, 479), Some(700 * 480 * 3 - 3));
    assert_eq!(writer.write_pixel(700, 479), None);
    assert_eq!(writer.write_pixel(0, 480), None);
    assert_eq!(writer.write_pixel(usize::MAX, 1), None);
    assert_eq!(writer.write_pixel(1, usize::MAX), None);
}

#[test]
fn pixel_that_ends_past_the_buffer_is_refused() {
    let mut info = screen();
    info.byte_len = 8;
    let writer = VGAWriter::init(info);
    assert_eq!(writer.write_pixel(1, 0), Some(3));
    assert_eq!(writer.write_pixel(2, 0), None);
    info.byte_len = 2;
    assert_eq!(VGAWriter::init(info).write_pixel(0, 0), None);
}
