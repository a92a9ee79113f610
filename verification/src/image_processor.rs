//! Statistics and pixel buffers of image files.
//!
//! Reading a file is the caller's work: an [`ImageFile`] holds a path and what
//! reading it gave. Decoding, grey-scale reduction and resizing are the work
//! of the `image` crate, reached through the small private functions below
//! whose contracts are believed, not proved. Everything else is proved: the
//! average, the metadata, the summary of a batch, and the two ways in which a
//! batch treats a file that fails.

use crate::errors::SemantiXelError;
use vstd::prelude::*;

verus! {

/// `image::DynamicImage`: a decoded image. Nothing inside it is visible here;
/// what the library reads of one goes by the names below.
#[verifier::external_type_specification]
#[verifier::external_body]
pub struct ExDynamicImage(image::DynamicImage);

/// `image::ImageFormat`: one of the file formats that the `image` crate knows.
#[verifier::external_type_specification]
#[verifier::external_body]
pub struct ExImageFormat(image::ImageFormat);

/// The failure of the `image` crate that stands for a file that could not be
/// read for the reason `cause`.
pub uninterp spec fn read_failure(cause: std::io::Error) -> image::ImageError;

/// The format that the extension of `path` names, if it names one.
pub uninterp spec fn format_of_path(path: Seq<char>) -> Option<image::ImageFormat>;

/// The image that `data` holds when read as `format`, if it holds one.
pub uninterp spec fn decoded_as(data: Seq<u8>, format: image::ImageFormat) -> Option<
    image::DynamicImage,
>;

/// The width of `img` in pixels.
pub uninterp spec fn image_width(img: image::DynamicImage) -> u32;

/// The height of `img` in pixels.
pub uninterp spec fn image_height(img: image::DynamicImage) -> u32;

/// How the pixels of a decoded image hold their colour: `L` for luminance,
/// `a` for an alpha channel, then the bits of each channel.
#[derive(Debug, Clone, Copy)]
pub enum ColorModel {
    L8,
    La8,
    Rgb8,
    Rgba8,
    L16,
    La16,
    Rgb16,
    Rgba16,
    Rgb32F,
    Rgba32F,
    /// A colour model that this library does not know by name.
    Unknown,
}

/// The colour model of `img`.
pub uninterp spec fn color_model(img: image::DynamicImage) -> ColorModel;

/// The name of a colour model.
pub open spec fn model_label(model: ColorModel) -> Seq<char> {
    match model {
        ColorModel::L8 => "L8"@,
        ColorModel::La8 => "La8"@,
        ColorModel::Rgb8 => "Rgb8"@,
        ColorModel::Rgba8 => "Rgba8"@,
        ColorModel::L16 => "L16"@,
        ColorModel::La16 => "La16"@,
        ColorModel::Rgb16 => "Rgb16"@,
        ColorModel::Rgba16 => "Rgba16"@,
        ColorModel::Rgb32F => "Rgb32F"@,
        ColorModel::Rgba32F => "Rgba32F"@,
        ColorModel::Unknown => "Unknown"@,
    }
}

/// The name of a colour model.
pub fn label_of(model: ColorModel) -> (label: String)
    ensures
        label@ == model_label(model),
{
    match model {
        ColorModel::L8 => "L8".to_owned(),
        ColorModel::La8 => "La8".to_owned(),
        ColorModel::Rgb8 => "Rgb8".to_owned(),
        ColorModel::Rgba8 => "Rgba8".to_owned(),
        ColorModel::L16 => "L16".to_owned(),
        ColorModel::La16 => "La16".to_owned(),
        ColorModel::Rgb16 => "Rgb16".to_owned(),
        ColorModel::Rgba16 => "Rgba16".to_owned(),
        ColorModel::Rgb32F => "Rgb32F".to_owned(),
        ColorModel::Rgba32F => "Rgba32F".to_owned(),
        ColorModel::Unknown => "Unknown".to_owned(),
    }
}

/// The luminance of each pixel of `img`, row by row.
pub uninterp spec fn luma_pixels(img: image::DynamicImage) -> Seq<u8>;

/// The red, green and blue of each pixel of `img`, row by row.
pub uninterp spec fn rgb_pixels(img: image::DynamicImage) -> Seq<u8>;

/// `img` scaled, with its proportions kept, to fit within `max_width` by
/// `max_height`.
pub uninterp spec fn thumbnail_of(
    img: image::DynamicImage,
    max_width: u32,
    max_height: u32,
) -> image::DynamicImage;

/// The image that a file at `path` with the contents `data` holds, if it
/// holds one: the extension of the path says which format to read.
pub open spec fn decoded(path: Seq<char>, data: Seq<u8>) -> Option<image::DynamicImage> {
    match format_of_path(path) {
        Some(format) => decoded_as(data, format),
        None => None,
    }
}

/// `image::ImageError::IoError`: the failure that the `image` crate reports
/// for a file that it could not read. It depends on the cause alone; the
/// contract names it.
#[verifier::external_body]
fn read_failed(cause: std::io::Error) -> (error: image::ImageError)
    ensures
        error == read_failure(cause),
{
    image::ImageError::IoError(cause)
}

/// `image::ImageFormat::from_path`. The format depends on the path's text
/// alone; the contract names it and says that the call fails exactly where
/// the extension names no format.
#[verifier::external_body]
fn format_from_path(path: &str) -> (outcome: Result<image::ImageFormat, image::ImageError>)
    ensures
        match outcome {
            Ok(format) => format_of_path(path@) == Some(format),
            Err(_) => format_of_path(path@) is None,
        },
{
    image::ImageFormat::from_path(path)
}

/// `image::load_from_memory_with_format`. The decoded image depends on the
/// bytes and the format alone; the contract names it and says that the call
/// fails exactly where the bytes hold no image of that format.
#[verifier::external_body]
fn load_with_format(data: &[u8], format: image::ImageFormat) -> (outcome: Result<
    image::DynamicImage,
    image::ImageError,
>)
    ensures
        match outcome {
            Ok(img) => decoded_as(data@, format) == Some(img),
            Err(_) => decoded_as(data@, format) is None,
        },
{
    image::load_from_memory_with_format(data, format)
}

/// `image::DynamicImage::width`. The contract names the width.
#[verifier::external_body]
fn width_of(img: &image::DynamicImage) -> (width: u32)
    ensures
        width == image_width(*img),
{
    img.width()
}

/// `image::DynamicImage::height`. The contract names the height.
#[verifier::external_body]
fn height_of(img: &image::DynamicImage) -> (height: u32)
    ensures
        height == image_height(*img),
{
    img.height()
}

/// `image::DynamicImage::color`, each of its colour types told apart. The
/// contract names the colour model.
#[verifier::external_body]
fn color_of(img: &image::DynamicImage) -> (model: ColorModel)
    ensures
        model == color_model(*img),
{
    match img.color() {
        image::ColorType::L8 => ColorModel::L8,
        image::ColorType::La8 => ColorModel::La8,
        image::ColorType::Rgb8 => ColorModel::Rgb8,
        image::ColorType::Rgba8 => ColorModel::Rgba8,
        image::ColorType::L16 => ColorModel::L16,
        image::ColorType::La16 => ColorModel::La16,
        image::ColorType::Rgb16 => ColorModel::Rgb16,
        image::ColorType::Rgba16 => ColorModel::Rgba16,
        image::ColorType::Rgb32F => ColorModel::Rgb32F,
        image::ColorType::Rgba32F => ColorModel::Rgba32F,
        _ => ColorModel::Unknown,
    }
}

/// `image::DynamicImage::to_luma8`, pixel by pixel. The grey image depends
/// on `img` alone and has its size, so it has one byte for each pixel of
/// `img`.
#[verifier::external_body]
fn to_luma8(img: &image::DynamicImage) -> (pixels: Vec<u8>)
    ensures
        pixels@ == luma_pixels(*img),
        pixels@.len() == image_width(*img) * image_height(*img),
{
    img.to_luma8().pixels().map(|pixel| pixel.0[0]).collect()
}

/// `image::DynamicImage::to_rgb8`, pixel by pixel. The colour image depends
/// on `img` alone and has its size, so it has three bytes for each pixel of
/// `img`.
#[verifier::external_body]
fn to_rgb8(img: &image::DynamicImage) -> (pixels: Vec<u8>)
    ensures
        pixels@ == rgb_pixels(*img),
        pixels@.len() == 3 * image_width(*img) * image_height(*img),
{
    img.to_rgb8().pixels().flat_map(|pixel| pixel.0).collect()
}

/// `image::DynamicImage::thumbnail`. The scaled image depends on `img` and
/// the bounds alone; the contract names it and says that it is at least one
/// pixel wide and high, fits within the bounds and, where `img` has a pixel,
/// is the largest that does: one of its sides reaches its bound. The bounds
/// are kept small enough for the result's buffer to be allocated.
#[verifier::external_body]
fn thumbnail(
    img: &image::DynamicImage,
    max_width: u32,
    max_height: u32,
) -> (small: image::DynamicImage)
    requires
        1 <= max_width <= 8192,
        1 <= max_height <= 8192,
    ensures
        small == thumbnail_of(*img, max_width, max_height),
        1 <= image_width(small) <= max_width,
        1 <= image_height(small) <= max_height,
        image_width(*img) >= 1 && image_height(*img) >= 1 ==> image_width(small) == max_width
            || image_height(small) == max_height,
{
    img.thumbnail(max_width, max_height)
}

/// The side of the square within which a thumbnail fits.
pub const THUMBNAIL_SIDE: u32 = 224;

/// A file as the caller found it: its path and what reading it gave.
#[derive(Debug)]
pub struct ImageFile {
    /// Where the file lies. Its extension says how to decode the contents.
    pub path: String,
    /// The bytes of the file, or why they could not be read.
    pub contents: Result<Vec<u8>, std::io::Error>,
}

/// What the file system said of one path.
#[derive(Debug)]
pub struct FileProbe {
    /// The path and what reading it gave.
    pub file: ImageFile,
    /// Whether anything was there.
    pub exists: bool,
    /// The size that the file system reports, or why it reported none.
    pub size: Result<u64, std::io::Error>,
}

/// What is known of one valid image file.
#[derive(Debug, Clone)]
pub struct ImageMetadata {
    pub path: String,
    pub width: u32,
    pub height: u32,
    pub file_size: u64,
    pub format: String,
}

/// The summary of a batch of files.
#[derive(Debug, Clone)]
pub struct BatchStatistics {
    pub total_files: u32,
    pub valid_files: u32,
    pub total_size: u64,
    pub avg_width: u32,
    pub avg_height: u32,
}

impl BatchStatistics {
    /// Whether the summary hangs together: no more valid files than files,
    /// and no dimensions without a valid file.
    pub open spec fn is_consistent(self) -> bool {
        &&& self.valid_files <= self.total_files
        &&& self.valid_files == 0 ==> self.avg_width == 0 && self.avg_height == 0
    }
}

/// The sum of the intensities.
pub open spec fn intensity_sum(pixels: Seq<u8>) -> nat
    decreases pixels.len(),
{
    if pixels.len() == 0 {
        0
    } else {
        intensity_sum(pixels.drop_last()) + pixels.last() as nat
    }
}

/// The mean of the intensities, rounded down; zero where there is no pixel.
pub open spec fn mean_intensity(pixels: Seq<u8>) -> int {
    if pixels.len() == 0 {
        0
    } else {
        intensity_sum(pixels) as int / pixels.len() as int
    }
}

/// `sum / count` rounded down; zero where nothing was counted.
pub open spec fn average_dimension(sum: nat, count: nat) -> int {
    if count == 0 {
        0
    } else {
        sum as int / count as int
    }
}

impl ImageFile {
    /// The image in the file, if the file could be read and holds one.
    pub open spec fn image(self) -> Option<image::DynamicImage> {
        match self.contents {
            Ok(data) => decoded(self.path@, data@),
            Err(_) => None,
        }
    }

    /// Whether `error` is how this file without an image fails: as an image
    /// that cannot be had, for the cause that kept the file from being read
    /// where there is one.
    pub open spec fn fails_with(self, error: SemantiXelError) -> bool {
        match self.contents {
            Ok(_) => error is CodecError,
            Err(cause) => error == SemantiXelError::CodecError(read_failure(cause)),
        }
    }

    /// The mean intensity of the image in the file; zero where it has none.
    pub open spec fn average_or_zero(self) -> int {
        match self.image() {
            Some(img) => mean_intensity(luma_pixels(img)),
            None => 0,
        }
    }

    /// The pixel buffer of the image in the file, if it has one.
    pub open spec fn buffer(self) -> Option<Seq<u8>> {
        match self.image() {
            Some(img) => Some(rgb_pixels(thumbnail_of(img, THUMBNAIL_SIDE, THUMBNAIL_SIDE))),
            None => None,
        }
    }
}

impl FileProbe {
    /// The image at the path, if the path is valid: something is there, it
    /// holds an image, and the file system reports its size.
    pub open spec fn valid_image(self) -> Option<image::DynamicImage> {
        if self.exists && self.size is Ok {
            self.file.image()
        } else {
            None
        }
    }
}

/// How many of the probes are valid.
pub open spec fn valid_count(probes: Seq<FileProbe>) -> nat
    decreases probes.len(),
{
    if probes.len() == 0 {
        0
    } else if probes.last().valid_image() is Some {
        valid_count(probes.drop_last()) + 1
    } else {
        valid_count(probes.drop_last())
    }
}

/// The sizes of the valid files, added up.
pub open spec fn valid_size(probes: Seq<FileProbe>) -> nat
    decreases probes.len(),
{
    if probes.len() == 0 {
        0
    } else if probes.last().valid_image() is Some {
        valid_size(probes.drop_last()) + probes.last().size->Ok_0 as nat
    } else {
        valid_size(probes.drop_last())
    }
}

/// The widths of the valid images, added up.
pub open spec fn valid_width(probes: Seq<FileProbe>) -> nat
    decreases probes.len(),
{
    if probes.len() == 0 {
        0
    } else if probes.last().valid_image() is Some {
        valid_width(probes.drop_last()) + image_width(probes.last().valid_image()->0) as nat
    } else {
        valid_width(probes.drop_last())
    }
}

/// The heights of the valid images, added up.
pub open spec fn valid_height(probes: Seq<FileProbe>) -> nat
    decreases probes.len(),
{
    if probes.len() == 0 {
        0
    } else if probes.last().valid_image() is Some {
        valid_height(probes.drop_last()) + image_height(probes.last().valid_image()->0) as nat
    } else {
        valid_height(probes.drop_last())
    }
}

/// All the sizes that the file system reported, added up.
pub open spec fn reported_size(probes: Seq<FileProbe>) -> nat
    decreases probes.len(),
{
    if probes.len() == 0 {
        0
    } else if probes.last().size is Ok {
        reported_size(probes.drop_last()) + probes.last().size->Ok_0 as nat
    } else {
        reported_size(probes.drop_last())
    }
}

/// The running totals of a batch, as plain numbers.
pub struct TotalsView {
    /// How many files were counted.
    pub files: nat,
    /// How many of them are valid.
    pub valid: nat,
    /// The sizes of the valid files, added up.
    pub size: nat,
    /// The widths of the valid images, added up.
    pub width: nat,
    /// The heights of the valid images, added up.
    pub height: nat,
}

impl TotalsView {
    /// The totals of no file.
    pub open spec fn none() -> TotalsView {
        TotalsView { files: 0, valid: 0, size: 0, width: 0, height: 0 }
    }

    /// The totals with one more file: it is counted, and where it is valid
    /// it counts as valid and adds its size and dimensions.
    pub open spec fn with(self, probe: FileProbe) -> TotalsView {
        if probe.valid_image() is Some {
            TotalsView {
                files: self.files + 1,
                valid: self.valid + 1,
                size: self.size + probe.size->Ok_0 as nat,
                width: self.width + image_width(probe.valid_image()->0) as nat,
                height: self.height + image_height(probe.valid_image()->0) as nat,
            }
        } else {
            TotalsView { files: self.files + 1, ..self }
        }
    }

    /// Whether the totals can be held: the files can be counted in 32 bits
    /// and the sizes add up within 64 bits.
    pub open spec fn fits(self) -> bool {
        self.files <= u32::MAX && self.size <= u64::MAX
    }
}

/// The totals of a batch, file after file.
pub open spec fn totals_of(probes: Seq<FileProbe>) -> TotalsView
    decreases probes.len(),
{
    if probes.len() == 0 {
        TotalsView::none()
    } else {
        totals_of(probes.drop_last()).with(probes.last())
    }
}

/// The running totals of a batch. No more files are valid than were counted,
/// and the widths and heights are those of that many images.
#[derive(Debug, Clone, Copy)]
pub struct BatchTotals {
    total_files: u32,
    valid_files: u32,
    total_size: u64,
    total_width: u64,
    total_height: u64,
}

impl View for BatchTotals {
    type V = TotalsView;

    closed spec fn view(&self) -> TotalsView {
        TotalsView {
            files: self.total_files as nat,
            valid: self.valid_files as nat,
            size: self.total_size as nat,
            width: self.total_width as nat,
            height: self.total_height as nat,
        }
    }
}

impl BatchTotals {
    #[verifier::type_invariant]
    spec fn well_formed(self) -> bool {
        &&& self.valid_files <= self.total_files
        &&& self.total_width <= self.valid_files * u32::MAX
        &&& self.total_height <= self.valid_files * u32::MAX
    }

    /// The totals of no file.
    pub fn new() -> (totals: Self)
        ensures
            totals@ == TotalsView::none(),
    {
        BatchTotals {
            total_files: 0,
            valid_files: 0,
            total_size: 0,
            total_width: 0,
            total_height: 0,
        }
    }

    /// The totals with one more file, unless they can no longer be held.
    pub fn add(self, probe: FileProbe) -> (outcome: Option<BatchTotals>)
        ensures
            outcome is Some <==> self@.with(probe).fits(),
            outcome matches Some(next) ==> next@ == self@.with(probe),
    {
        proof {
            use_type_invariant(&self);
        }
        if self.total_files == u32::MAX {
            return None;
        }
        match ImageProcessor::validate_image(probe) {
            Ok(metadata) => {
                if metadata.file_size > u64::MAX - self.total_size {
                    return None;
                }
                assert((self.valid_files + 1) * u32::MAX == self.valid_files * u32::MAX
                    + u32::MAX) by (nonlinear_arith);
                assert((self.valid_files + 1) * u32::MAX <= u64::MAX) by (nonlinear_arith)
                    requires
                        self.valid_files + 1 <= u32::MAX,
                ;
                Some(
                    BatchTotals {
                        total_files: self.total_files + 1,
                        valid_files: self.valid_files + 1,
                        total_size: self.total_size + metadata.file_size,
                        total_width: self.total_width + metadata.width as u64,
                        total_height: self.total_height + metadata.height as u64,
                    },
                )
            },
            Err(_) => Some(
                BatchTotals {
                    total_files: self.total_files + 1,
                    valid_files: self.valid_files,
                    total_size: self.total_size,
                    total_width: self.total_width,
                    total_height: self.total_height,
                },
            ),
        }
    }

    /// The summary that the totals make: the counts and the size as they
    /// are, and each dimension averaged over the valid files and rounded
    /// down, zero where no file is valid.
    pub fn finish(&self) -> (stats: BatchStatistics)
        ensures
            stats.total_files == self@.files,
            stats.valid_files == self@.valid,
            stats.total_size == self@.size,
            stats.avg_width == average_dimension(self@.width, self@.valid),
            stats.avg_height == average_dimension(self@.height, self@.valid),
            stats.is_consistent(),
    {
        proof {
            use_type_invariant(self);
        }
        let avg_width: u32 = if self.valid_files > 0 {
            let mean = self.total_width / (self.valid_files as u64);
            assert(mean <= u32::MAX) by (nonlinear_arith)
                requires
                    mean == self.total_width / (self.valid_files as u64),
                    self.total_width <= self.valid_files * u32::MAX,
                    self.valid_files > 0,
            ;
            mean as u32
        } else {
            0
        };
        let avg_height: u32 = if self.valid_files > 0 {
            let mean = self.total_height / (self.valid_files as u64);
            assert(mean <= u32::MAX) by (nonlinear_arith)
                requires
                    mean == self.total_height / (self.valid_files as u64),
                    self.total_height <= self.valid_files * u32::MAX,
                    self.valid_files > 0,
            ;
            mean as u32
        } else {
            0
        };
        BatchStatistics {
            total_files: self.total_files,
            valid_files: self.valid_files,
            total_size: self.total_size,
            avg_width,
            avg_height,
        }
    }
}

/// Whether every file holds an image.
pub open spec fn all_decode(files: Seq<ImageFile>) -> bool {
    forall|i: int| 0 <= i < files.len() ==> (#[trigger] files[i]).image() is Some
}

proof fn lemma_uniform_sum(pixels: Seq<u8>, value: u8)
    requires
        forall|i: int| 0 <= i < pixels.len() ==> pixels[i] == value,
    ensures
        intensity_sum(pixels) == value * pixels.len(),
    decreases pixels.len(),
{
    if pixels.len() > 0 {
        lemma_uniform_sum(pixels.drop_last(), value);
        assert(value * pixels.len() == value * (pixels.len() - 1) + value) by (nonlinear_arith);
    }
}

/// Where every pixel has the same intensity, the mean is that intensity.
pub proof fn lemma_uniform_mean(pixels: Seq<u8>, value: u8)
    requires
        pixels.len() > 0,
        forall|i: int| 0 <= i < pixels.len() ==> pixels[i] == value,
    ensures
        mean_intensity(pixels) == value,
{
    lemma_uniform_sum(pixels, value);
    let n = pixels.len() as int;
    let v = value as int;
    assert((v * n) / n == v) by (nonlinear_arith)
        requires
            n > 0,
    ;
}

proof fn lemma_valid_size_bound(probes: Seq<FileProbe>)
    ensures
        valid_size(probes) <= reported_size(probes),
    decreases probes.len(),
{
    if probes.len() > 0 {
        lemma_valid_size_bound(probes.drop_last());
    }
}

proof fn lemma_reported_size_grows(probes: Seq<FileProbe>, k: int)
    requires
        0 <= k <= probes.len(),
    ensures
        reported_size(probes.take(k)) <= reported_size(probes),
    decreases probes.len() - k,
{
    if k == probes.len() {
        assert(probes.take(k) =~= probes);
    } else {
        lemma_reported_size_grows(probes, k + 1);
        assert(probes.take(k + 1).drop_last() =~= probes.take(k));
    }
}

proof fn lemma_valid_size_grows(probes: Seq<FileProbe>, k: int)
    requires
        0 <= k <= probes.len(),
    ensures
        valid_size(probes.take(k)) <= valid_size(probes),
    decreases probes.len() - k,
{
    if k == probes.len() {
        assert(probes.take(k) =~= probes);
    } else {
        lemma_valid_size_grows(probes, k + 1);
        assert(probes.take(k + 1).drop_last() =~= probes.take(k));
    }
}

/// The running totals of a batch are its number of files, its number of
/// valid files, and the sizes, widths and heights of the valid ones added up.
pub proof fn lemma_totals_of(probes: Seq<FileProbe>)
    ensures
        totals_of(probes) == (TotalsView {
            files: probes.len(),
            valid: valid_count(probes),
            size: valid_size(probes),
            width: valid_width(probes),
            height: valid_height(probes),
        }),
    decreases probes.len(),
{
    if probes.len() > 0 {
        lemma_totals_of(probes.drop_last());
    }
}

/// A path at which nothing is there is counted, and not as valid: beside any
/// probes it leaves their number of valid files, their sizes and their
/// dimensions as they are, while the number of files grows by one.
pub proof fn lemma_missing_file_is_not_valid(probes: Seq<FileProbe>, missing: FileProbe)
    requires
        !missing.exists,
    ensures
        missing.valid_image() is None,
        probes.push(missing).len() == probes.len() + 1,
        valid_count(probes.push(missing)) == valid_count(probes),
        valid_size(probes.push(missing)) == valid_size(probes),
        valid_width(probes.push(missing)) == valid_width(probes),
        valid_height(probes.push(missing)) == valid_height(probes),
{
    assert(probes.push(missing).drop_last() =~= probes);
}

/// Where no probe is valid, both average dimensions are zero.
pub proof fn lemma_no_valid_file_no_dimensions(probes: Seq<FileProbe>)
    requires
        forall|i: int| 0 <= i < probes.len() ==> (#[trigger] probes[i]).valid_image() is None,
    ensures
        valid_count(probes) == 0,
        average_dimension(valid_width(probes), valid_count(probes)) == 0,
        average_dimension(valid_height(probes), valid_count(probes)) == 0,
    decreases probes.len(),
{
    if probes.len() > 0 {
        assert(probes.last() == probes[probes.len() - 1]);
        lemma_no_valid_file_no_dimensions(probes.drop_last());
    }
}

/// One file without an image is enough for the strict batch to fail, while
/// the lenient batch still answers for every file and puts zero in its place.
pub proof fn lemma_one_failure_two_policies(files: Seq<ImageFile>, k: int)
    requires
        0 <= k < files.len(),
        files[k].image() is None,
    ensures
        !all_decode(files),
        files[k].buffer() is None,
        files[k].average_or_zero() == 0,
{
}

/// The mean of the intensities, rounded down; zero where there is no pixel.
pub fn average_intensity(pixels: &[u8]) -> (average: i32)
    ensures
        average == mean_intensity(pixels@),
        0 <= average <= 255,
{
    let len = pixels.len();
    if len == 0 {
        return 0;
    }
    let mut total: u128 = 0;
    let mut i: usize = 0;
    assert(pixels@.take(0) =~= Seq::<u8>::empty());
    while i < len
        invariant
            i <= len,
            len == pixels@.len(),
            total == intensity_sum(pixels@.take(i as int)),
            total <= 255 * i,
        decreases len - i,
    {
        assert(pixels@.take(i + 1).drop_last() =~= pixels@.take(i as int));
        assert(pixels@.take(i + 1).last() == pixels@[i as int]);
        total = total + pixels[i] as u128;
        i += 1;
    }
    assert(pixels@.take(len as int) =~= pixels@);
    let mean = total / (len as u128);
    assert(mean <= 255) by (nonlinear_arith)
        requires
            mean == total / (len as u128),
            total <= 255 * len,
            len > 0,
    ;
    mean as i32
}

/// What a failed attempt at an average counts as: zero.
pub fn average_or_default(attempt: Result<i32, SemantiXelError>) -> (average: i32)
    ensures
        average == (match attempt {
            Ok(value) => value,
            Err(_) => 0,
        }),
{
    match attempt {
        Ok(value) => value,
        Err(_) => 0,
    }
}

/// What each attempt at an average counts as, in the order of the attempts:
/// its value, or zero where it failed.
pub fn settle_averages(attempts: Vec<Result<i32, SemantiXelError>>) -> (averages: Vec<i32>)
    ensures
        averages@.len() == attempts@.len(),
        forall|i: int|
            0 <= i < attempts@.len() ==> #[trigger] averages@[i] == (match attempts@[i] {
                Ok(value) => value,
                Err(_) => 0,
            }),
{
    let ghost given = attempts@;
    let mut averages: Vec<i32> = Vec::new();
    for attempt in it: attempts
        invariant
            it.seq() == given,
            averages@.len() == it.index(),
            forall|i: int|
                0 <= i < it.index() ==> #[trigger] averages@[i] == (match given[i] {
                    Ok(value) => value,
                    Err(_) => 0,
                }),
    {
        averages.push(average_or_default(attempt));
    }
    averages
}

/// Whether every attempt succeeded.
pub open spec fn all_succeeded(attempts: Seq<Result<Vec<u8>, SemantiXelError>>) -> bool {
    forall|i: int| 0 <= i < attempts.len() ==> (#[trigger] attempts[i]) is Ok
}

/// The buffers of the attempts, in their order, where every attempt
/// succeeded; else the failure of the first attempt that failed, and no
/// buffer.
pub fn settle_buffers(attempts: Vec<Result<Vec<u8>, SemantiXelError>>) -> (outcome: Result<
    Vec<Vec<u8>>,
    SemantiXelError,
>)
    ensures
        outcome is Ok <==> all_succeeded(attempts@),
        outcome matches Ok(buffers) ==> {
            &&& buffers@.len() == attempts@.len()
            &&& forall|i: int|
                0 <= i < attempts@.len() ==> attempts@[i] == Ok::<Vec<u8>, SemantiXelError>(
                    #[trigger] buffers@[i],
                )
        },
        outcome matches Err(error) ==> exists|k: int|
            {
                &&& 0 <= k < attempts@.len()
                &&& all_succeeded(attempts@.take(k))
                &&& #[trigger] attempts@[k] == Err::<Vec<u8>, SemantiXelError>(error)
            },
{
    let ghost given = attempts@;
    let mut buffers: Vec<Vec<u8>> = Vec::new();
    for attempt in it: attempts
        invariant
            it.seq() == given,
            buffers@.len() == it.index(),
            all_succeeded(given.take(it.index())),
            forall|i: int|
                0 <= i < it.index() ==> given[i] == Ok::<Vec<u8>, SemantiXelError>(
                    #[trigger] buffers@[i],
                ),
    {
        let ghost k = it.index();
        match attempt {
            Ok(buffer) => {
                buffers.push(buffer);
                assert(all_succeeded(given.take(k + 1))) by {
                    assert forall|i: int| 0 <= i < k + 1 implies (#[trigger] given.take(
                        k + 1,
                    )[i]) is Ok by {
                        if i < k {
                            assert(given.take(k)[i] == given[i]);
                        }
                    }
                }
            },
            Err(error) => {
                assert(given[k] is Err);
                return Err(error);
            },
        }
    }
    assert(given.take(given.len() as int) =~= given);
    Ok(buffers)
}

/// Decodes `data` as the format that the extension of `path` names.
fn decode(path: &str, data: &[u8]) -> (outcome: Result<image::DynamicImage, image::ImageError>)
    ensures
        match outcome {
            Ok(img) => decoded(path@, data@) == Some(img),
            Err(_) => decoded(path@, data@) is None,
        },
{
    match format_from_path(path) {
        Ok(format) => load_with_format(data, format),
        Err(cause) => Err(cause),
    }
}

/// The image in `file`, or how the file fails.
fn open(file: ImageFile) -> (outcome: Result<image::DynamicImage, SemantiXelError>)
    ensures
        match outcome {
            Ok(img) => file.image() == Some(img),
            Err(error) => file.image() is None && file.fails_with(error),
        },
{
    match file.contents {
        Err(cause) => Err(SemantiXelError::CodecError(read_failed(cause))),
        Ok(data) => match decode(file.path.as_str(), data.as_slice()) {
            Ok(img) => Ok(img),
            Err(cause) => Err(SemantiXelError::CodecError(cause)),
        },
    }
}

/// Computes statistics and pixel buffers of image files.
pub struct ImageProcessor;

impl ImageProcessor {
    /// A processor. It holds nothing.
    pub fn new() -> (processor: Self)
        ensures
            processor == ImageProcessor,
    {
        ImageProcessor
    }

    /// The mean luminance of the image in `file`, between 0 and 255.
    ///
    /// Fails with `CodecError` where the file could not be read and where its
    /// contents hold no image of the format that its extension names.
    pub fn calculate_average(file: ImageFile) -> (outcome: Result<i32, SemantiXelError>)
        ensures
            match outcome {
                Ok(average) => file.image() matches Some(img) && average == mean_intensity(
                    luma_pixels(img),
                ) && 0 <= average <= 255,
                Err(error) => file.image() is None && file.fails_with(error),
            },
    {
        match open(file) {
            Ok(img) => {
                let pixels = to_luma8(&img);
                Ok(average_intensity(pixels.as_slice()))
            },
            Err(error) => Err(error),
        }
    }

    /// The mean luminance of each file, in the order of `files`; zero for a
    /// file that fails. A failing file never fails the batch.
    pub fn calculate_averages(&self, files: Vec<ImageFile>) -> (outcome: Result<
        Vec<i32>,
        SemantiXelError,
    >)
        ensures
            outcome matches Ok(averages) && {
                &&& averages@.len() == files@.len()
                &&& forall|i: int|
                    0 <= i < files@.len() ==> #[trigger] averages@[i] == files@[i].average_or_zero()
            },
    {
        let ghost given = files@;
        let mut averages: Vec<i32> = Vec::new();
        for file in it: files
            invariant
                it.seq() == given,
                averages@.len() == it.index(),
                forall|i: int|
                    0 <= i < it.index() ==> #[trigger] averages@[i] == given[i].average_or_zero(),
        {
            let average = average_or_default(Self::calculate_average(file));
            averages.push(average);
        }
        Ok(averages)
    }

    /// The width and the height of the image in `file`.
    pub fn get_dimensions(file: ImageFile) -> (outcome: Result<(u32, u32), SemantiXelError>)
        ensures
            match outcome {
                Ok(size) => file.image() matches Some(img) && size == (
                    image_width(img),
                    image_height(img),
                ),
                Err(error) => file.image() is None && file.fails_with(error),
            },
    {
        match open(file) {
            Ok(img) => Ok((width_of(&img), height_of(&img))),
            Err(error) => Err(error),
        }
    }

    /// What is known of the image at a path.
    ///
    /// Fails with `InvalidPath` where nothing is at the path; else with
    /// `CodecError`, where the file could not be read or holds no image; else
    /// with `IoError` and the cause for which the file system reported no
    /// size.
    pub fn validate_image(probe: FileProbe) -> (outcome: Result<ImageMetadata, SemantiXelError>)
        ensures
            outcome is Ok <==> probe.valid_image() is Some,
            !probe.exists ==> (outcome matches Err(SemantiXelError::InvalidPath(path)) && path@
                == probe.file.path@),
            probe.exists && probe.file.image() is None ==> (outcome matches Err(error)
                && probe.file.fails_with(error)),
            probe.exists && probe.file.image() is Some ==> match probe.size {
                Err(cause) => outcome == Err::<ImageMetadata, SemantiXelError>(
                    SemantiXelError::IoError(cause),
                ),
                Ok(size) => outcome matches Ok(metadata) && {
                    &&& metadata.path@ == probe.file.path@
                    &&& metadata.width == image_width(probe.file.image()->0)
                    &&& metadata.height == image_height(probe.file.image()->0)
                    &&& metadata.file_size == size
                    &&& metadata.format@ == model_label(color_model(probe.file.image()->0))
                },
            },
    {
        let FileProbe { file, exists, size } = probe;
        if !exists {
            return Err(SemantiXelError::InvalidPath(file.path));
        }
        let path = file.path.clone();
        match open(file) {
            Err(error) => Err(error),
            Ok(img) => match size {
                Err(cause) => Err(SemantiXelError::IoError(cause)),
                Ok(file_size) => Ok(
                    ImageMetadata {
                        path,
                        width: width_of(&img),
                        height: height_of(&img),
                        file_size,
                        format: label_of(color_of(&img)),
                    },
                ),
            },
        }
    }

    /// The pixel buffer of the image in `file`: the image scaled to fit a
    /// square of 224 pixels with its proportions kept, as red, green and blue
    /// bytes pixel after pixel, three for each pixel of the scaled image. The
    /// larger side of the scaled image is 224 pixels, unless the image has no
    /// pixel.
    pub fn process_single_image(&self, file: ImageFile) -> (outcome: Result<
        Vec<u8>,
        SemantiXelError,
    >)
        ensures
            match outcome {
                Ok(buffer) => file.buffer() == Some(buffer@) && ({
                    let small = thumbnail_of(file.image()->0, THUMBNAIL_SIDE, THUMBNAIL_SIDE);
                    &&& buffer@.len() == 3 * image_width(small) * image_height(small)
                    &&& 1 <= image_width(small) <= THUMBNAIL_SIDE
                    &&& 1 <= image_height(small) <= THUMBNAIL_SIDE
                    &&& image_width(file.image()->0) >= 1 && image_height(file.image()->0) >= 1
                        ==> image_width(small) == THUMBNAIL_SIDE || image_height(small)
                        == THUMBNAIL_SIDE
                }),
                Err(error) => file.image() is None && file.fails_with(error),
            },
    {
        match open(file) {
            Ok(img) => {
                let small = thumbnail(&img, THUMBNAIL_SIDE, THUMBNAIL_SIDE);
                Ok(to_rgb8(&small))
            },
            Err(error) => Err(error),
        }
    }

    /// The pixel buffer of each file, in the order of `files`.
    ///
    /// One failing file fails the batch: the call then returns how the first
    /// such file fails, and no buffer.
    pub fn process_batch(&self, files: Vec<ImageFile>) -> (outcome: Result<
        Vec<Vec<u8>>,
        SemantiXelError,
    >)
        ensures
            outcome is Ok <==> all_decode(files@),
            outcome matches Ok(buffers) ==> {
                &&& buffers@.len() == files@.len()
                &&& forall|i: int|
                    0 <= i < files@.len() ==> files@[i].buffer() == Some(
                        (#[trigger] buffers@[i])@,
                    )
            },
            outcome matches Err(error) ==> exists|k: int|
                {
                    &&& 0 <= k < files@.len()
                    &&& all_decode(files@.take(k))
                    &&& (#[trigger] files@[k]).image() is None
                    &&& files@[k].fails_with(error)
                },
    {
        let ghost given = files@;
        let mut buffers: Vec<Vec<u8>> = Vec::new();
        for file in it: files
            invariant
                it.seq() == given,
                buffers@.len() == it.index(),
                all_decode(given.take(it.index())),
                forall|i: int|
                    0 <= i < it.index() ==> given[i].buffer() == Some((#[trigger] buffers@[i])@),
        {
            let ghost k = it.index();
            match self.process_single_image(file) {
                Ok(buffer) => {
                    buffers.push(buffer);
                    assert(all_decode(given.take(k + 1))) by {
                        assert forall|i: int| 0 <= i < k + 1 implies (#[trigger] given.take(
                            k + 1,
                        )[i]).image() is Some by {
                            if i < k {
                                assert(given.take(k)[i] == given[i]);
                            }
                        }
                    }
                },
                Err(error) => {
                    assert(given[k].image() is None);
                    return Err(error);
                },
            }
        }
        assert(given.take(given.len() as int) =~= given);
        Ok(buffers)
    }

    /// Whether a batch can surely be summed up: its files can be counted in
    /// 32 bits and all the sizes that were reported for them, those of files
    /// that hold no image too, add up within 64 bits.
    pub fn can_summarize(probes: &Vec<FileProbe>) -> (fits: bool)
        ensures
            fits == (probes@.len() <= u32::MAX && reported_size(probes@) <= u64::MAX),
    {
        if probes.len() > u32::MAX as usize {
            return false;
        }
        let mut total: u64 = 0;
        let mut i: usize = 0;
        assert(probes@.take(0) =~= Seq::<FileProbe>::empty());
        while i < probes.len()
            invariant
                i <= probes.len(),
                total == reported_size(probes@.take(i as int)),
            decreases probes.len() - i,
        {
            assert(probes@.take(i + 1).drop_last() =~= probes@.take(i as int));
            assert(probes@.take(i + 1).last() == probes@[i as int]);
            match &probes[i].size {
                Ok(size) => {
                    if *size > u64::MAX - total {
                        proof {
                            lemma_reported_size_grows(probes@, i + 1);
                        }
                        return false;
                    }
                    total = total + *size;
                },
                Err(_) => {},
            }
            i += 1;
        }
        assert(probes@.take(probes.len() as int) =~= probes@);
        true
    }

    /// The summary of a batch of probes.
    ///
    /// Every probe counts as a file; only the valid ones count as valid and
    /// add their size and dimensions. The averages are rounded down, and zero
    /// where no probe is valid. The files must be countable in 32 bits and the
    /// sizes of the valid ones must add up within 64 bits.
    pub fn batch_statistics(&self, probes: Vec<FileProbe>) -> (outcome: Result<
        BatchStatistics,
        SemantiXelError,
    >)
        requires
            probes@.len() <= u32::MAX,
            valid_size(probes@) <= u64::MAX,
        ensures
            outcome matches Ok(stats) && {
                &&& stats.total_files == probes@.len()
                &&& stats.valid_files == valid_count(probes@)
                &&& stats.is_consistent()
                &&& stats.total_size == valid_size(probes@)
                &&& stats.avg_width == average_dimension(
                    valid_width(probes@),
                    valid_count(probes@),
                )
                &&& stats.avg_height == average_dimension(
                    valid_height(probes@),
                    valid_count(probes@),
                )
            },
    {
        let ghost given = probes@;
        let mut totals = BatchTotals::new();
        assert(given.take(0) =~= Seq::<FileProbe>::empty());
        for probe in it: probes
            invariant
                it.seq() == given,
                given.len() <= u32::MAX,
                valid_size(given) <= u64::MAX,
                totals@ == totals_of(given.take(it.index())),
        {
            let ghost k = it.index();
            proof {
                assert(given.take(k + 1).drop_last() =~= given.take(k));
                assert(given.take(k + 1).last() == probe);
                lemma_totals_of(given.take(k + 1));
                lemma_valid_size_grows(given, k + 1);
            }
            match totals.add(probe) {
                Some(next) => {
                    totals = next;
                },
                None => {
                    vstd::pervasive::unreached::<()>();
                },
            }
        }
        proof {
            assert(given.take(given.len() as int) =~= given);
            lemma_totals_of(given);
        }
        Ok(totals.finish())
    }

    /// The summary of a batch of probes, where `can_summarize` holds of it;
    /// nothing where it does not.
    pub fn summarize(&self, probes: Vec<FileProbe>) -> (outcome: Option<BatchStatistics>)
        ensures
            outcome is Some <==> probes@.len() <= u32::MAX && reported_size(probes@) <= u64::MAX,
            outcome matches Some(stats) ==> {
                &&& stats.total_files == probes@.len()
                &&& stats.valid_files == valid_count(probes@)
                &&& stats.is_consistent()
                &&& stats.total_size == valid_size(probes@)
                &&& stats.avg_width == average_dimension(
                    valid_width(probes@),
                    valid_count(probes@),
                )
                &&& stats.avg_height == average_dimension(
                    valid_height(probes@),
                    valid_count(probes@),
                )
            },
    {
        if !Self::can_summarize(&probes) {
            return None;
        }
        proof {
            lemma_valid_size_bound(probes@);
        }
        match self.batch_statistics(probes) {
            Ok(stats) => Some(stats),
            Err(_) => None,
        }
    }
}

impl Default for ImageProcessor {
    fn default() -> (processor: Self)
        ensures
            processor == ImageProcessor,
    {
        ImageProcessor::new()
    }
}

} // verus!
