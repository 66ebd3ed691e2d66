//! The checks and small decisions of the user-facing commands: what input is
//! refused and with which message, which session is shown, how the sync
//! overview is assembled, and what the window starts with.

use vstd::prelude::*;
use vstd::string::StringExecFns;
use crate::encoding::{decimal_string, decimal_text, string_from_chars};
use crate::numbers::{parse_i32, parse_i32_spec};
use crate::records::DeviceRecord;
use crate::text::{chars_of, find_from, find_spec, trim, trim_chars, Strip};
use crate::types::{CurrentSession, DeviceItem, SyncHistoryItem};

verus! {

/// Setting up synchronisation: the two entries of the sync password must
/// agree, then it must not be empty.
pub fn check_setup_passwords(password: &str, confirm: &str) -> (r: Result<(), String>)
    ensures
        password@ != confirm@ ==> (r matches Err(m) && m@ == "两次输入的同步密码不一致"@),
        password@ == confirm@ && password@.len() == 0 ==> (r matches Err(m) && m@ == "同步密码不能为空"@),
        password@ == confirm@ && password@.len() > 0 ==> r is Ok,
{
    if password.to_owned() != confirm.to_owned() {
        return Err("两次输入的同步密码不一致".to_owned());
    }
    if password.unicode_len() == 0 {
        return Err("同步密码不能为空".to_owned());
    }
    Ok(())
}

/// A new sync password must not be empty, and its two entries must agree.
pub fn check_new_password(password: &str, confirm: &str) -> (r: Result<(), String>)
    ensures
        r is Ok <==> (password@.len() > 0 && password@ == confirm@),
        r matches Err(m) ==> m@ == "新密码不能为空，且两次输入必须一致"@,
{
    if password.unicode_len() == 0 || password.to_owned() != confirm.to_owned() {
        return Err("新密码不能为空，且两次输入必须一致".to_owned());
    }
    Ok(())
}

/// Plain HTTP exposes the WebDAV credentials: it is refused unless the user
/// accepted the risk. The message names the action (saving or resetting).
pub fn check_insecure(insecure: bool, allowed: bool, resetting: bool) -> (r: Result<(), String>)
    ensures
        r is Ok <==> (!insecure || allowed),
        r matches Err(m) ==> (resetting ==> m@ == "HTTP WebDAV 会暴露用户名和密码，请确认风险后再重置"@)
            && (!resetting ==> m@ == "HTTP WebDAV 会暴露用户名和密码，请确认风险后再保存"@),
{
    if insecure && !allowed {
        if resetting {
            return Err("HTTP WebDAV 会暴露用户名和密码，请确认风险后再重置".to_owned());
        }
        return Err("HTTP WebDAV 会暴露用户名和密码，请确认风险后再保存".to_owned());
    }
    Ok(())
}

/// Resetting the sync space: it must be confirmed, the new password must be
/// valid, and no run may be in progress, checked in that order.
pub fn check_reset(confirmed: bool, password: &str, confirm: &str, running: bool) -> (r: Result<(), String>)
    ensures
        !confirmed ==> (r matches Err(m) && m@ == "重置同步空间需要二次确认"@),
        confirmed && !(password@.len() > 0 && password@ == confirm@) ==> (r matches Err(m) && m@ == "新密码不能为空，且两次输入必须一致"@),
        confirmed && password@.len() > 0 && password@ == confirm@ && running ==> (r matches Err(m) && m@ == "同步进行中，不能重置"@),
        r is Ok <==> (confirmed && password@.len() > 0 && password@ == confirm@ && !running),
{
    if !confirmed {
        return Err("重置同步空间需要二次确认".to_owned());
    }
    match check_new_password(password, confirm) {
        Err(m) => {
            return Err(m);
        },
        Ok(()) => {},
    }
    if running {
        return Err("同步进行中，不能重置".to_owned());
    }
    Ok(())
}

/// Rebuilding a remote year: it must be confirmed and no run may be in
/// progress.
pub fn check_rebuild(confirmed: bool, running: bool) -> (r: Result<(), String>)
    ensures
        !confirmed ==> (r matches Err(m) && m@ == "重建远端年度包需要二次确认"@),
        confirmed && running ==> (r matches Err(m) && m@ == "同步进行中，不能重建"@),
        r is Ok <==> (confirmed && !running),
{
    if !confirmed {
        return Err("重建远端年度包需要二次确认".to_owned());
    }
    if running {
        return Err("同步进行中，不能重建".to_owned());
    }
    Ok(())
}

/// Restoring a local year from the server: it must be confirmed and no run
/// may be in progress.
pub fn check_restore(confirmed: bool, running: bool) -> (r: Result<(), String>)
    ensures
        !confirmed ==> (r matches Err(m) && m@ == "从远端重建本地年度数据需要二次确认"@),
        confirmed && running ==> (r matches Err(m) && m@ == "同步进行中，不能恢复"@),
        r is Ok <==> (confirmed && !running),
{
    if !confirmed {
        return Err("从远端重建本地年度数据需要二次确认".to_owned());
    }
    if running {
        return Err("同步进行中，不能恢复".to_owned());
    }
    Ok(())
}

/// The name of the current device: the name of the first device entry with
/// its id, or `Windows PC`.
pub fn current_device_name(devices: &[DeviceRecord], current: &str) -> (r: String)
    ensures
        (exists|i: int| 0 <= i < devices@.len() && devices@[i].device_id@ == current@) ==>
            exists|i: int| 0 <= i < devices@.len() && devices@[i].device_id@ == current@
                && r@ == devices@[i].display_name@
                && forall|k: int| 0 <= k < i ==> #[trigger] devices@[k].device_id@ != current@,
        (forall|i: int| 0 <= i < devices@.len() ==> devices@[i].device_id@ != current@) ==> r@ == "Windows PC"@,
{
    let id = current.to_owned();
    let mut i: usize = 0;
    while i < devices.len()
        invariant
            id@ == current@,
            i <= devices@.len(),
            forall|k: int| 0 <= k < i ==> #[trigger] devices@[k].device_id@ != current@,
        decreases devices.len() - i,
    {
        if devices[i].device_id == id {
            return devices[i].display_name.clone();
        }
        i = i + 1;
    }
    "Windows PC".to_owned()
}

/// When the last successful run happened: the time of the first successful
/// entry of the history (which lists the newest first).
pub fn last_success_at(history: &[SyncHistoryItem]) -> (r: Option<i64>)
    ensures
        match r {
            Some(t) => exists|i: int| 0 <= i < history@.len() && history@[i].success && history@[i].created_at == t
                && forall|k: int| 0 <= k < i ==> !#[trigger] history@[k].success,
            None => forall|k: int| 0 <= k < history@.len() ==> !#[trigger] history@[k].success,
        },
{
    let mut i: usize = 0;
    while i < history.len()
        invariant
            i <= history@.len(),
            forall|k: int| 0 <= k < i ==> !#[trigger] history@[k].success,
        decreases history.len() - i,
    {
        if history[i].success {
            return Some(history[i].created_at);
        }
        i = i + 1;
    }
    None
}

/// The devices as the overview lists them, the current one marked.
pub fn device_items(devices: &[DeviceRecord], current: &str) -> (r: Vec<DeviceItem>)
    ensures
        r@.len() == devices@.len(),
        forall|i: int| 0 <= i < r@.len() ==> #[trigger] r@[i].device_id@ == devices@[i].device_id@
            && r@[i].display_name@ == devices@[i].display_name@
            && r@[i].is_current == (devices@[i].device_id@ == current@),
{
    let id = current.to_owned();
    let mut out: Vec<DeviceItem> = Vec::new();
    let mut i: usize = 0;
    while i < devices.len()
        invariant
            id@ == current@,
            i <= devices@.len(),
            out@.len() == i,
            forall|k: int| 0 <= k < i ==> #[trigger] out@[k].device_id@ == devices@[k].device_id@
                && out@[k].display_name@ == devices@[k].display_name@
                && out@[k].is_current == (devices@[k].device_id@ == current@),
        decreases devices.len() - i,
    {
        out.push(DeviceItem {
            device_id: devices[i].device_id.clone(),
            display_name: devices[i].display_name.clone(),
            is_current: devices[i].device_id == id,
        });
        i = i + 1;
    }
    out
}

/// Whether an endpoint is plain HTTP.
pub fn is_insecure_endpoint(endpoint: &str) -> (r: bool)
    ensures
        r == "http://"@.is_prefix_of(endpoint@),
{
    proof {
        reveal_strlit("http://");
    }
    let v = chars_of(endpoint);
    let p = chars_of("http://");
    if v.len() < p.len() {
        return false;
    }
    let mut i: usize = 0;
    while i < p.len()
        invariant
            v@ == endpoint@,
            p@ == "http://"@,
            p.len() <= v.len(),
            i <= p.len(),
            forall|k: int| 0 <= k < i ==> v@[k] == p@[k],
        decreases p.len() - i,
    {
        if v[i] != p[i] {
            return false;
        }
        i = i + 1;
    }
    assert(endpoint@.subrange(0, p@.len() as int) =~= p@);
    true
}

/// The name of this application itself, whose own window is not shown as
/// the current session.
pub open spec fn own_process_name() -> Seq<char> {
    "tracer.exe"@
}

/// The session shown as current at time `now`: the foreground one, or, when
/// that is this application itself, the last other one (when there is one);
/// its duration runs up to `now`.
pub fn pick_session(current: Option<CurrentSession>, last: Option<CurrentSession>, now: i64) -> (r: Result<CurrentSession, String>)
    requires
        current matches Some(c) ==> i64::MIN <= now - c.start_timestamp <= i64::MAX,
        current matches Some(c) ==> (c.process_name@ == own_process_name() ==> (last matches Some(l) ==> (i64::MIN
            <= now - l.start_timestamp <= i64::MAX))),
    ensures
        current is None ==> (r matches Err(m) && m@ == "暂无前台会话"@),
        current matches Some(c) ==> (r matches Ok(s) && {
            let chosen = if c.process_name@ == own_process_name() && last is Some { last.unwrap() } else { c };
            &&& s.process_name@ == chosen.process_name@
            &&& s.display_name == chosen.display_name
            &&& s.start_timestamp == chosen.start_timestamp
            &&& s.current_duration == now - chosen.start_timestamp
        }),
{
    let mut sess = match current {
        Some(c) => c,
        None => {
            return Err("暂无前台会话".to_owned());
        },
    };
    sess.current_duration = now - sess.start_timestamp;
    if sess.process_name == "tracer.exe".to_owned() {
        match last {
            Some(l) => {
                sess = l;
                sess.current_duration = now - sess.start_timestamp;
            },
            None => {},
        }
    }
    Ok(sess)
}

/// A remembered session, unless it belongs to the process just ignored.
pub fn clear_if_process(session: Option<CurrentSession>, process: &str) -> (r: Option<CurrentSession>)
    ensures
        match session {
            Some(s) => if s.process_name@ == process@ { r is None } else { r == Some(s) },
            None => r is None,
        },
{
    match session {
        Some(s) => {
            if s.process_name == process.to_owned() {
                None
            } else {
                Some(s)
            }
        },
        None => None,
    }
}

/// The colour of the window before its page has loaded, by theme.
pub open spec fn theme_color(theme: Seq<char>, system_dark: bool) -> (u8, u8, u8, u8) {
    if theme == "pure"@ {
        (255, 255, 255, 255)
    } else if theme == "dark"@ {
        (15, 23, 42, 255)
    } else if theme == "ocean"@ {
        (11, 25, 44, 255)
    } else if theme == "forest"@ {
        (6, 78, 59, 255)
    } else if theme == "system"@ && system_dark {
        (15, 23, 42, 255)
    } else {
        (240, 240, 236, 255)
    }
}

/// The window's background colour (red, green, blue, alpha) for the stored
/// theme; the system theme follows whether the system is dark.
pub fn theme_background(theme: &str, system_dark: bool) -> (r: (u8, u8, u8, u8))
    ensures
        r == theme_color(theme@, system_dark),
{
    let t = theme.to_owned();
    if t == "pure".to_owned() {
        (255, 255, 255, 255)
    } else if t == "dark".to_owned() {
        (15, 23, 42, 255)
    } else if t == "ocean".to_owned() {
        (11, 25, 44, 255)
    } else if t == "forest".to_owned() {
        (6, 78, 59, 255)
    } else if t == "system".to_owned() && system_dark {
        (15, 23, 42, 255)
    } else {
        (240, 240, 236, 255)
    }
}

/// Whether the system uses a dark theme, where there is no registry to ask:
/// it does not.
pub fn system_is_dark() -> (r: bool)
    ensures
        !r,
{
    false
}

/// Whether the system is dark from the registry's `AppsUseLightTheme` value:
/// only a stored 0 means dark.
pub fn dark_from_registry(apps_use_light_theme: Option<u32>) -> (r: bool)
    ensures
        r == (apps_use_light_theme == Some(0u32)),
{
    match apps_use_light_theme {
        Some(v) => v == 0,
        None => false,
    }
}

/// The name the application shows for the installer's language choice.
pub fn display_name_for_language(language: Option<&str>) -> (r: String)
    ensures
        (language matches Some(l) && l@ == "en-US"@) ==> r@ == "tracer"@,
        !(language matches Some(l) && l@ == "en-US"@) ==> r@ == "踪"@,
{
    match language {
        Some(l) => {
            if l.to_owned() == "en-US".to_owned() {
                "tracer".to_owned()
            } else {
                "踪".to_owned()
            }
        },
        None => "踪".to_owned(),
    }
}

/// The first version tag of a releases feed: the trimmed text of the first
/// `<title>` element after the first `<entry>`, if it is not blank.
pub open spec fn atom_first_tag(feed: Seq<char>) -> Option<Seq<char>> {
    match find_spec(feed, "<entry>"@, 0) {
        None => None,
        Some(e) => match find_spec(feed, "<title>"@, e) {
            None => None,
            Some(t) => match find_spec(feed, "</title>"@, t + "<title>"@.len()) {
                None => None,
                Some(c) => {
                    let tag = trim(feed.subrange(t + "<title>"@.len(), c), Strip::WhiteSpace);
                    if tag.len() == 0 {
                        None
                    } else {
                        Some(tag)
                    }
                },
            },
        },
    }
}

/// Reads the newest version from a releases feed.
pub fn parse_atom_first_tag(feed: &str) -> (r: Option<String>)
    ensures
        match r {
            Some(t) => atom_first_tag(feed@) == Some(t@),
            None => atom_first_tag(feed@) is None,
        },
{
    let v = chars_of(feed);
    let entry = chars_of("<entry>");
    let open = chars_of("<title>");
    let close = chars_of("</title>");
    let e = match find_from(&v, &entry, 0) {
        Some(e) => e,
        None => {
            return None;
        },
    };
    let t = match find_from(&v, &open, e) {
        Some(t) => t,
        None => {
            return None;
        },
    };
    let n = v.len();
    assert(t + open@.len() <= n);
    let body_start = t + open.len();
    let c = match find_from(&v, &close, body_start) {
        Some(c) => c,
        None => {
            return None;
        },
    };
    let mut body: Vec<char> = Vec::new();
    let mut k: usize = body_start;
    while k < c
        invariant
            body_start <= k <= c,
            c <= v@.len(),
            body@ == v@.subrange(body_start as int, k as int),
        decreases c - k,
    {
        body.push(v[k]);
        k = k + 1;
        assert(body@ =~= v@.subrange(body_start as int, k as int));
    }
    let tag = trim_chars(body.as_slice(), Strip::WhiteSpace);
    if tag.len() == 0 {
        None
    } else {
        Some(string_from_chars(tag.as_slice()))
    }
}

/// The window position stored as `x,y`: both parts, trimmed, read as `i32`.
pub open spec fn window_pos_spec(value: Seq<char>) -> Option<(i32, i32)> {
    match find_spec(value, ","@, 0) {
        None => None,
        Some(i) => match (
            parse_i32_spec(trim(value.subrange(0, i), Strip::WhiteSpace)),
            parse_i32_spec(trim(value.subrange(i + 1, value.len() as int), Strip::WhiteSpace)),
        ) {
            (Some(x), Some(y)) => Some((x, y)),
            _ => None,
        },
    }
}

fn copy_range(v: &Vec<char>, from: usize, to: usize) -> (r: Vec<char>)
    requires
        from <= to <= v@.len(),
    ensures
        r@ == v@.subrange(from as int, to as int),
{
    let mut out: Vec<char> = Vec::new();
    let mut k: usize = from;
    while k < to
        invariant
            from <= k <= to,
            to <= v@.len(),
            out@ == v@.subrange(from as int, k as int),
        decreases to - k,
    {
        out.push(v[k]);
        k = k + 1;
        assert(out@ =~= v@.subrange(from as int, k as int));
    }
    out
}

/// Reads a stored window position.
pub fn parse_window_pos(value: &str) -> (r: Option<(i32, i32)>)
    ensures
        r == window_pos_spec(value@),
{
    proof {
        reveal_strlit(",");
    }
    let v = chars_of(value);
    let comma = chars_of(",");
    let i = match find_from(&v, &comma, 0) {
        Some(i) => i,
        None => {
            return None;
        },
    };
    let n = v.len();
    assert(i + comma@.len() <= n);
    let left = trim_chars(copy_range(&v, 0, i).as_slice(), Strip::WhiteSpace);
    let right = trim_chars(copy_range(&v, i + 1, n).as_slice(), Strip::WhiteSpace);
    let x = parse_i32(string_from_chars(left.as_slice()).as_str());
    let y = parse_i32(string_from_chars(right.as_slice()).as_str());
    match (x, y) {
        (Some(a), Some(b)) => Some((a, b)),
        _ => None,
    }
}

/// Whether a window position is a real one: minimised windows report
/// coordinates of -32000, which are neither restored nor saved.
pub fn position_usable(x: i32, y: i32) -> (r: bool)
    ensures
        r == (x > -30000 && y > -30000),
{
    x > -30000 && y > -30000
}

/// The largest custom icon accepted, in bytes (10 MiB).
pub const MAX_ICON_BYTES: usize = 10485760;

/// A custom icon must be neither empty nor larger than 10 MiB.
pub fn check_icon_size(len: usize) -> (r: Result<(), String>)
    ensures
        r is Ok <==> (0 < len <= MAX_ICON_BYTES),
        r matches Err(m) ==> m@ == "图标文件必须小于 10 MB"@,
{
    if len == 0 || len > MAX_ICON_BYTES {
        return Err("图标文件必须小于 10 MB".to_owned());
    }
    Ok(())
}

/// The application a custom icon is set for must be the one stored for the
/// process.
pub fn check_icon_owner(stored_id: i64, app_id: i64) -> (r: Result<(), String>)
    ensures
        r is Ok <==> stored_id == app_id,
        r matches Err(m) ==> m@ == "应用标识不匹配"@,
{
    if stored_id != app_id {
        return Err("应用标识不匹配".to_owned());
    }
    Ok(())
}

/// The file name of an application's custom icon, `custom-{id}.png`.
pub fn custom_icon_file_name(app_id: i64) -> (r: String)
    ensures
        r@ == "custom-"@ + decimal_text(app_id as int) + ".png"@,
{
    let s = "custom-".to_owned();
    let id = decimal_string(app_id);
    let s = s.concat(id.as_str());
    s.concat(".png")
}

/// Whether `image::load_from_memory` reads the bytes as an image (PNG or
/// JPEG, the formats this crate is built with).
pub uninterp spec fn image_decodes(data: Seq<u8>) -> bool;

/// The PNG file that the image in `data`, scaled by
/// `DynamicImage::thumbnail` to fit in `side` by `side` pixels, is written as
/// by `DynamicImage::write_to`.
pub uninterp spec fn icon_png(data: Seq<u8>, side: u32) -> Seq<u8>;

/// Decodes the bytes with `image::load_from_memory`, scales the image with
/// `DynamicImage::thumbnail` and writes it as PNG into memory with
/// `DynamicImage::write_to`. Trusted: `None` exactly when the bytes do not
/// decode; otherwise the PNG file named by `icon_png`. Writing cannot fail
/// for a decoded image: `write_to` first converts the image to a colour type
/// the PNG encoder takes, the thumbnail has sides of at least one pixel, and
/// the output is a `Vec` in memory. `side` is at most `ICON_SIDE`: a far
/// larger one can make `thumbnail` allocate a buffer whose length overflows,
/// which panics.
#[verifier::external_body]
fn thumbnail_png(data: &[u8], side: u32) -> (r: Option<Vec<u8>>)
    requires
        side <= ICON_SIDE,
    ensures
        r is Some <==> image_decodes(data@),
        r matches Some(b) ==> b@ == icon_png(data@, side),
{
    let img = image::load_from_memory(data).ok()?;
    let mut out = std::io::Cursor::new(Vec::new());
    img.thumbnail(side, side).write_to(&mut out, image::ImageFormat::Png).ok()?;
    Some(out.into_inner())
}

/// The largest side of a custom icon, in pixels.
pub const ICON_SIDE: u32 = 128;

/// A custom icon as stored: the size is checked, the image decoded, scaled
/// to fit in 128 by 128 pixels and encoded as PNG.
pub fn custom_icon_png(data: &[u8]) -> (r: Result<Vec<u8>, String>)
    ensures
        !(0 < data@.len() <= MAX_ICON_BYTES) ==> (r matches Err(m) && m@ == "图标文件必须小于 10 MB"@),
        (0 < data@.len() <= MAX_ICON_BYTES && image_decodes(data@)) ==> (r matches Ok(b) && b@ == icon_png(
            data@,
            ICON_SIDE,
        )),
        (0 < data@.len() <= MAX_ICON_BYTES && !image_decodes(data@)) ==> (r matches Err(m) && m@
            == "不支持或损坏的图片文件"@),
{
    match check_icon_size(data.len()) {
        Err(m) => {
            return Err(m);
        },
        Ok(()) => {},
    }
    match thumbnail_png(data, ICON_SIDE) {
        Some(b) => Ok(b),
        None => Err("不支持或损坏的图片文件".to_owned()),
    }
}

/// The `k`-th pixel of four-byte pixels.
pub open spec fn pixel_at(s: Seq<u8>, k: int) -> (u8, u8, u8, u8) {
    (s[4 * k], s[4 * k + 1], s[4 * k + 2], s[4 * k + 3])
}

/// Whether some pixel of an icon's BGRA pixels has a non-zero alpha byte.
pub open spec fn has_alpha(s: Seq<u8>) -> bool {
    exists|k: int| 0 <= k < s.len() / 4 && #[trigger] pixel_at(s, k).3 != 0
}

/// A BGRA pixel as RGBA. Without any alpha in the icon (an old-style icon),
/// a pixel is opaque unless it is black.
pub open spec fn rgba_of(p: (u8, u8, u8, u8), alpha: bool) -> (u8, u8, u8, u8) {
    (p.2, p.1, p.0, if alpha {
        p.3
    } else if p.0 != 0 || p.1 != 0 || p.2 != 0 {
        255u8
    } else {
        0u8
    })
}

/// Converts an icon's BGRA pixels, as Windows hands them out, to RGBA.
pub fn icon_rgba_from_bgra(pixels: &[u8]) -> (r: Vec<u8>)
    requires
        pixels@.len() % 4 == 0,
    ensures
        r@.len() == pixels@.len(),
        forall|k: int|
            0 <= k < pixels@.len() / 4 ==> #[trigger] pixel_at(r@, k) == rgba_of(pixel_at(pixels@, k), has_alpha(pixels@)),
{
    let len = pixels.len();
    let n = len / 4;
    assert(4 * n == pixels@.len());
    assert(4 * n <= usize::MAX);
    let mut alpha = false;
    let mut i: usize = 0;
    while i < n
        invariant
            n == pixels@.len() / 4,
            4 * n == pixels@.len(),
            4 * n <= usize::MAX,
            pixels@.len() % 4 == 0,
            i <= n,
            alpha <==> exists|k: int| 0 <= k < i && #[trigger] pixel_at(pixels@, k).3 != 0,
        decreases n - i,
    {
        assert(4 * i + 3 < pixels@.len()) by (nonlinear_arith)
            requires
                i < n,
                4 * n == pixels@.len(),
        ;
        if pixels[4 * i + 3] != 0 {
            alpha = true;
            assert(pixel_at(pixels@, i as int).3 != 0);
        }
        i = i + 1;
    }
    let mut out: Vec<u8> = Vec::new();
    let mut j: usize = 0;
    while j < n
        invariant
            n == pixels@.len() / 4,
            4 * n == pixels@.len(),
            4 * n <= usize::MAX,
            pixels@.len() % 4 == 0,
            j <= n,
            alpha == has_alpha(pixels@),
            out@.len() == 4 * j,
            forall|k: int| 0 <= k < j ==> #[trigger] pixel_at(out@, k) == rgba_of(pixel_at(pixels@, k), alpha),
        decreases n - j,
    {
        assert(4 * j + 3 < pixels@.len()) by (nonlinear_arith)
            requires
                j < n,
                4 * n == pixels@.len(),
        ;
        let b = pixels[4 * j];
        let g = pixels[4 * j + 1];
        let r = pixels[4 * j + 2];
        let a = if alpha {
            pixels[4 * j + 3]
        } else if r != 0 || g != 0 || b != 0 {
            255u8
        } else {
            0u8
        };
        let ghost before = out@;
        out.push(r);
        out.push(g);
        out.push(b);
        out.push(a);
        assert forall|k: int| 0 <= k < j + 1 implies #[trigger] pixel_at(out@, k) == rgba_of(pixel_at(pixels@, k), alpha) by {
            if k < j {
                assert(pixel_at(out@, k) == pixel_at(before, k));
            }
        }
        j = j + 1;
    }
    out
}

} // verus!
