//! Upload helpers: content-type classification and filename handling. The
//! streaming, image decoding and thumbnailing around them are I/O and stay
//! in the surrounding program.

use crate::config::UploadConfig;
use crate::text::{lower_of, lowercase, str_eq_str, to_char_vec};
use vstd::prelude::*;

verus! {

/// The part of a content type after `image/`, or nothing for other types.
pub open spec fn image_format_of(ct: Seq<char>) -> Seq<char> {
    if ct.len() >= 6 && ct.take(6) == "image/"@ {
        ct.skip(6)
    } else {
        Seq::empty()
    }
}

/// The file-upload service: classification against the configured image
/// formats.
pub struct FileUploadService {
    config: UploadConfig,
}

impl FileUploadService {
    pub fn new(config: UploadConfig) -> (r: Self)
        ensures
            r.spec_config() == config,
    {
        FileUploadService { config }
    }

    /// The configuration the service was built with.
    pub closed spec fn spec_config(&self) -> UploadConfig {
        self.config
    }

    /// The lower-cased image format of a content type, empty for
    /// non-image types.
    fn format_of(content_type: &str) -> (r: String)
        ensures
            r@ == lower_of(image_format_of(content_type@)),
    {
        let chars = to_char_vec(content_type);
        let n = content_type.unicode_len();
        let is_image_type = n >= 6 && chars[0] == 'i' && chars[1] == 'm' && chars[2] == 'a'
            && chars[3] == 'g' && chars[4] == 'e' && chars[5] == '/';
        proof {
            reveal_strlit("image/");
            if is_image_type {
                assert(chars@.take(6) =~= "image/"@);
            } else if n >= 6 {
                assert(chars@.take(6) != "image/"@) by {
                    if chars@.take(6) == "image/"@ {
                        assert(chars@.take(6)[0] == 'i');
                        assert(chars@.take(6)[1] == 'm');
                        assert(chars@.take(6)[2] == 'a');
                        assert(chars@.take(6)[3] == 'g');
                        assert(chars@.take(6)[4] == 'e');
                        assert(chars@.take(6)[5] == '/');
                    }
                }
            }
        }
        if is_image_type {
            let tail = content_type.substring_char(6, n);
            proof {
                assert(tail@ =~= content_type@.skip(6));
            }
            lowercase(tail)
        } else {
            let empty = lowercase("");
            proof {
                reveal_strlit("");
                assert(""@ =~= Seq::<char>::empty());
                assert(empty@ == lower_of(image_format_of(content_type@)));
            }
            empty
        }
    }

    /// Whether the content type names one of the configured image formats.
    pub fn is_image(&self, content_type: &str) -> (r: bool)
        ensures
            r == exists|i: int|
                0 <= i < self.spec_config().image_formats@.len() && (
                #[trigger] self.spec_config().image_formats@[i])@ == lower_of(
                    image_format_of(content_type@),
                ),
    {
        let format = Self::format_of(content_type);
        let mut i: usize = 0;
        while i < self.config.image_formats.len()
            invariant
                i <= self.config.image_formats@.len(),
                self.spec_config() == self.config,
                format@ == lower_of(image_format_of(content_type@)),
                forall|k: int|
                    0 <= k < i ==> (#[trigger] self.config.image_formats@[k])@ != format@,
            decreases self.config.image_formats@.len() - i,
        {
            if str_eq_str(self.config.image_formats[i].as_str(), format.as_str()) {
                return true;
            }
            i = i + 1;
        }
        false
    }

    /// Whether files of this content type carry camera orientation
    /// metadata that must be applied before thumbnailing.
    pub fn needs_exif_rotation(content_type: &str) -> (r: bool)
        ensures
            r == {
                let fmt = lower_of(image_format_of(content_type@));
                fmt == "jpeg"@ || fmt == "jpg"@ || fmt == "jif"@
            },
    {
        let format = Self::format_of(content_type);
        let chars = to_char_vec(format.as_str());
        crate::text::char_vec_eq_str(&chars, "jpeg") || crate::text::char_vec_eq_str(&chars, "jpg")
            || crate::text::char_vec_eq_str(&chars, "jif")
    }

    /// The final component of a path: everything after the last `/`.
    pub fn get_filename(filepath: &str) -> (r: String)
        ensures
            r@ == filepath@.skip(crate::files::last_slash(filepath@) + 1),
    {
        let chars = to_char_vec(filepath);
        let n = filepath.unicode_len();
        let mut cut: usize = 0;
        let mut i: usize = 0;
        while i < n
            invariant
                n == filepath@.len(),
                chars@ == filepath@,
                i <= n,
                cut as int == crate::files::last_slash(filepath@.take(i as int)) + 1,
                cut <= i,
            decreases n - i,
        {
            proof {
                assert(filepath@.take(i + 1).drop_last() =~= filepath@.take(i as int));
                assert(filepath@.take(i + 1).last() == filepath@[i as int]);
            }
            if chars[i] == '/' {
                cut = i + 1;
            }
            i = i + 1;
        }
        proof {
            assert(filepath@.take(n as int) =~= filepath@);
        }
        let tail = filepath.substring_char(cut, n);
        proof {
            assert(tail@ =~= filepath@.skip(crate::files::last_slash(filepath@) + 1));
        }
        tail.to_owned()
    }
}

} // verus!
