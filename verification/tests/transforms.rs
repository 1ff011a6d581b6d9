use image_filter::error::ConfigFault;
use image_filter::error::ImageError;
use image_filter::error::StateFault;
use image_filter::image::binarize;
use image_filter::image::create_image_from_channels;
use image_filter::image::get_channel;
use image_filter::image::layout_of;
use image_filter::image::to_gray;
use image_filter::image::Channel;
use image_filter::image::ColorType;
use image_filter::image::Image;

fn color_2x2() -> Image {
    Image::new(
        2,
        2,
        ColorType::Color,
        vec![10, 20, 31, 255, 255, 254, 0, 0, 0, 1, 2, 3],
    )
    .unwrap()
}

fn gray(width: u32, height: u32, data: Vec<u8>) -> Image {
    Image::new(width, height, ColorType::Gray, data).unwrap()
}

#[test]
fn new_accepts_matching_length() {
    let img = Image::new(2, 3, ColorType::Gray, vec![1, 2, 3, 4, 5, 6]).unwrap();
    assert_eq!(img.width, 2);
    assert_eq!(img.height, 3);
    assert_eq!(img.color_type, ColorType::Gray);
    assert_eq!(img.data, vec![1, 2, 3, 4, 5, 6]);
    assert!(img.is_valid());
}

#[test]
fn new_accepts_empty_image() {
    let img = Image::new(0, 7, ColorType::Color, vec![]).unwrap();
    assert!(img.is_valid());
    assert_eq!(img.data.len(), 0);
}

#[test]
fn new_rejects_short_buffer() {
    let r = Image::new(2, 2, ColorType::Color, vec![0; 11]);
    assert_eq!(r, Err(ImageError::ConfigError(ConfigFault::DataLength)));
}

#[test]
fn new_rejects_long_buffer() {
    let r = Image::new(2, 2, ColorType::Gray, vec![0; 5]);
    assert_eq!(r, Err(ImageError::ConfigError(ConfigFault::DataLength)));
}

#[test]
fn new_rejects_gray_length_for_color_layout() {
    let r = Image::new(2, 2, ColorType::Color, vec![0; 4]);
    assert_eq!(r, Err(ImageError::ConfigError(ConfigFault::DataLength)));
}

#[test]
fn new_handles_largest_dimensions() {
    let r = Image::new(u32::MAX, u32::MAX, ColorType::Color, vec![0; 3]);
    assert_eq!(r, Err(ImageError::ConfigError(ConfigFault::DataLength)));
}

#[test]
fn is_valid_sees_a_literal_with_wrong_length() {
    let img = Image { width: 3, height: 1, color_type: ColorType::Color, data: vec![0; 8] };
    assert!(!img.is_valid());
    let img = Image { width: 3, height: 1, color_type: ColorType::Color, data: vec![0; 9] };
    assert!(img.is_valid());
}

#[test]
fn pixel_width_is_one_or_three() {
    assert_eq!(gray(1, 1, vec![0]).get_pixl_width(), 1);
    assert_eq!(color_2x2().get_pixl_width(), 3);
}

#[test]
fn shape_is_width_then_height() {
    assert_eq!(gray(3, 2, vec![0; 6]).shape(), (3, 2));
}

#[test]
fn pixel_offset_counts_rows_then_columns_then_channels() {
    let img = Image::new(4, 3, ColorType::Color, vec![0; 36]).unwrap();
    assert_eq!(img.pixel_offset(0, 0), Some(0));
    assert_eq!(img.pixel_offset(1, 0), Some(3));
    assert_eq!(img.pixel_offset(0, 1), Some(12));
    assert_eq!(img.pixel_offset(3, 2), Some(33));
    let img = gray(4, 3, vec![0; 12]);
    assert_eq!(img.pixel_offset(3, 2), Some(11));
}

#[test]
fn pixel_offset_rejects_coordinates_outside() {
    let img = Image::new(4, 3, ColorType::Color, vec![0; 36]).unwrap();
    assert_eq!(img.pixel_offset(4, 0), None);
    assert_eq!(img.pixel_offset(0, 3), None);
    assert_eq!(img.pixel_offset(u32::MAX, u32::MAX), None);
}

#[test]
fn layout_of_accepts_eight_bit_gray_and_rgb() {
    assert_eq!(layout_of(1, 8), Ok(ColorType::Gray));
    assert_eq!(layout_of(3, 8), Ok(ColorType::Color));
}

#[test]
fn layout_of_rejects_other_formats() {
    assert_eq!(layout_of(3, 16), Err(ImageError::UnsupportedFormatError));
    assert_eq!(layout_of(1, 1), Err(ImageError::UnsupportedFormatError));
    assert_eq!(layout_of(4, 8), Err(ImageError::UnsupportedFormatError));
    assert_eq!(layout_of(2, 8), Err(ImageError::UnsupportedFormatError));
    assert_eq!(layout_of(0, 8), Err(ImageError::UnsupportedFormatError));
}

#[test]
fn to_gray_takes_the_mean_rounded_down() {
    let out = to_gray(&color_2x2()).unwrap();
    assert_eq!(out.width, 2);
    assert_eq!(out.height, 2);
    assert_eq!(out.color_type, ColorType::Gray);
    // (10+20+31)/3 = 20.33, (255+255+254)/3 = 254.67, 0, (1+2+3)/3 = 2
    assert_eq!(out.data, vec![20, 254, 0, 2]);
}

#[test]
fn to_gray_does_not_round_up() {
    let img = Image::new(1, 1, ColorType::Color, vec![0, 0, 2]).unwrap();
    assert_eq!(to_gray(&img).unwrap().data, vec![0]);
    let img = Image::new(1, 1, ColorType::Color, vec![255, 255, 255]).unwrap();
    assert_eq!(to_gray(&img).unwrap().data, vec![255]);
}

#[test]
fn to_gray_leaves_its_input_alone() {
    let img = color_2x2();
    let before = img.clone();
    let _ = to_gray(&img);
    assert_eq!(img, before);
}

#[test]
fn to_gray_twice_fails_the_second_time() {
    let once = to_gray(&color_2x2()).unwrap();
    let twice = to_gray(&once);
    assert_eq!(twice, Err(ImageError::StateError(StateFault::AlreadyGray)));
}

#[test]
fn to_gray_of_empty_color_image() {
    let img = Image::new(0, 0, ColorType::Color, vec![]).unwrap();
    let out = to_gray(&img).unwrap();
    assert_eq!(out.color_type, ColorType::Gray);
    assert!(out.data.is_empty());
}

#[test]
fn binarize_threshold_boundary() {
    let img = gray(5, 1, vec![0, 99, 100, 101, 255]);
    let out = binarize(&img, 100).unwrap();
    assert_eq!(out.data, vec![0, 0, 255, 255, 255]);
    assert_eq!(out.shape(), (5, 1));
    assert_eq!(out.color_type, ColorType::Gray);
}

#[test]
fn binarize_threshold_zero_and_max() {
    let img = gray(3, 1, vec![0, 254, 255]);
    assert_eq!(binarize(&img, 0).unwrap().data, vec![255, 255, 255]);
    assert_eq!(binarize(&img, 255).unwrap().data, vec![0, 0, 255]);
}

#[test]
fn binarize_converts_color_first() {
    // gray levels 20, 254, 0, 2
    let out = binarize(&color_2x2(), 20).unwrap();
    assert_eq!(out.color_type, ColorType::Gray);
    assert_eq!(out.shape(), (2, 2));
    assert_eq!(out.data, vec![255, 255, 0, 0]);
}

#[test]
fn binarize_leaves_its_input_alone() {
    let img = gray(2, 1, vec![7, 200]);
    let _ = binarize(&img, 100).unwrap();
    assert_eq!(img.data, vec![7, 200]);
}

#[test]
fn get_channel_as_gray_plane() {
    let img = color_2x2();
    let r = get_channel(&img, Channel::R, false).unwrap();
    let g = get_channel(&img, Channel::G, false).unwrap();
    let b = get_channel(&img, Channel::B, false).unwrap();
    assert_eq!(r.data, vec![10, 255, 0, 1]);
    assert_eq!(g.data, vec![20, 255, 0, 2]);
    assert_eq!(b.data, vec![31, 254, 0, 3]);
    assert_eq!(r.color_type, ColorType::Gray);
    assert_eq!(r.shape(), (2, 2));
}

#[test]
fn get_channel_in_color_zeroes_the_others() {
    let img = color_2x2();
    let r = get_channel(&img, Channel::R, true).unwrap();
    let g = get_channel(&img, Channel::G, true).unwrap();
    let b = get_channel(&img, Channel::B, true).unwrap();
    assert_eq!(r.data, vec![10, 0, 0, 255, 0, 0, 0, 0, 0, 1, 0, 0]);
    assert_eq!(g.data, vec![0, 20, 0, 0, 255, 0, 0, 0, 0, 0, 2, 0]);
    assert_eq!(b.data, vec![0, 0, 31, 0, 0, 254, 0, 0, 0, 0, 0, 3]);
    assert_eq!(g.color_type, ColorType::Color);
    assert_eq!(g.shape(), (2, 2));
}

#[test]
fn get_channel_fails_on_gray_image() {
    let img = gray(1, 1, vec![5]);
    for in_color in [false, true] {
        for channel in [Channel::R, Channel::G, Channel::B, Channel::Gray] {
            assert_eq!(
                get_channel(&img, channel, in_color),
                Err(ImageError::StateError(StateFault::NotColor))
            );
        }
    }
}

#[test]
fn get_channel_fails_on_gray_selector() {
    let img = color_2x2();
    assert_eq!(
        get_channel(&img, Channel::Gray, false),
        Err(ImageError::StateError(StateFault::NoSuchChannel))
    );
    assert_eq!(
        get_channel(&img, Channel::Gray, true),
        Err(ImageError::StateError(StateFault::NoSuchChannel))
    );
}

#[test]
fn channels_interleave_in_rgb_order() {
    let r = gray(2, 1, vec![1, 4]);
    let g = gray(2, 1, vec![2, 5]);
    let b = gray(2, 1, vec![3, 6]);
    let out = create_image_from_channels(&r, &g, &b).unwrap();
    assert_eq!(out.color_type, ColorType::Color);
    assert_eq!(out.shape(), (2, 1));
    assert_eq!(out.data, vec![1, 2, 3, 4, 5, 6]);
}

#[test]
fn channel_round_trip_reproduces_the_image() {
    let img = color_2x2();
    let r = get_channel(&img, Channel::R, false).unwrap();
    let g = get_channel(&img, Channel::G, false).unwrap();
    let b = get_channel(&img, Channel::B, false).unwrap();
    let back = create_image_from_channels(&r, &g, &b).unwrap();
    assert_eq!(back, img);
}

#[test]
fn recombination_names_the_plane_that_is_not_gray() {
    let plane = gray(2, 2, vec![0; 4]);
    let color = color_2x2();
    assert_eq!(
        create_image_from_channels(&color, &plane, &plane),
        Err(ImageError::StateError(StateFault::PlaneNotGray(Channel::R)))
    );
    assert_eq!(
        create_image_from_channels(&plane, &color, &plane),
        Err(ImageError::StateError(StateFault::PlaneNotGray(Channel::G)))
    );
    assert_eq!(
        create_image_from_channels(&plane, &plane, &color),
        Err(ImageError::StateError(StateFault::PlaneNotGray(Channel::B)))
    );
    assert_eq!(
        create_image_from_channels(&color, &color, &color),
        Err(ImageError::StateError(StateFault::PlaneNotGray(Channel::R)))
    );
}

#[test]
fn recombination_names_the_plane_of_another_shape() {
    let wide = gray(4, 1, vec![0; 4]);
    let tall = gray(1, 4, vec![0; 4]);
    assert_eq!(
        create_image_from_channels(&wide, &tall, &wide),
        Err(ImageError::StateError(StateFault::PlaneShape(Channel::G)))
    );
    assert_eq!(
        create_image_from_channels(&wide, &wide, &tall),
        Err(ImageError::StateError(StateFault::PlaneShape(Channel::B)))
    );
    assert_eq!(
        create_image_from_channels(&wide, &tall, &tall),
        Err(ImageError::StateError(StateFault::PlaneShape(Channel::G)))
    );
}

#[test]
fn layout_is_checked_before_shape() {
    let wide = gray(4, 1, vec![0; 4]);
    let tall = gray(1, 4, vec![0; 4]);
    let color = color_2x2();
    assert_eq!(
        create_image_from_channels(&wide, &tall, &color),
        Err(ImageError::StateError(StateFault::PlaneNotGray(Channel::B)))
    );
}

#[test]
fn recombination_of_empty_planes() {
    let e = gray(0, 0, vec![]);
    let out = create_image_from_channels(&e, &e, &e).unwrap();
    assert_eq!(out.color_type, ColorType::Color);
    assert!(out.data.is_empty());
    assert!(out.is_valid());
}

#[test]
fn messages_tell_the_failures_apart() {
    let all = [
        ImageError::ConfigError(ConfigFault::DataLength),
        ImageError::ConfigError(ConfigFault::EvenSize),
        ImageError::ConfigError(ConfigFault::WeightCount),
        ImageError::StateError(StateFault::AlreadyGray),
        ImageError::StateError(StateFault::NotColor),
        ImageError::StateError(StateFault::NoSuchChannel),
        ImageError::StateError(StateFault::PlaneNotGray(Channel::R)),
        ImageError::StateError(StateFault::PlaneNotGray(Channel::G)),
        ImageError::StateError(StateFault::PlaneNotGray(Channel::B)),
        ImageError::StateError(StateFault::PlaneShape(Channel::G)),
        ImageError::StateError(StateFault::PlaneShape(Channel::B)),
        ImageError::UnsupportedFormatError,
    ];
    for (i, a) in all.iter().enumerate() {
        assert!(!a.message().is_empty());
        for b in all.iter().skip(i + 1) {
            assert_ne!(a.message(), b.message());
        }
    }
}

#[test]
fn messages_name_the_buffer() {
    assert_eq!(
        ImageError::StateError(StateFault::AlreadyGray).message(),
        "the image is already gray"
    );
    assert_eq!(
        ImageError::StateError(StateFault::PlaneShape(Channel::B)).message(),
        "the blue plane is not of the red plane's width and height"
    );
    assert_eq!(
        ImageError::StateError(StateFault::PlaneNotGray(Channel::G)).message(),
        "the green plane is not a gray image"
    );
}
