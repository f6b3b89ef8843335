use trana::platform::Platform;

#[test]
fn budgets_tighten_toward_mobile() {
    let n = Platform::Native.profile();
    let d = Platform::DesktopBrowser.profile();
    let m = Platform::MobileBrowser.profile();
    assert!(n.feed_page_size > d.feed_page_size && d.feed_page_size > m.feed_page_size);
    assert!(n.max_media_autoload_bytes > m.max_media_autoload_bytes);
    assert!(n.concurrency >= d.concurrency && d.concurrency >= m.concurrency);
    assert!(m.thumbnails_only && !n.thumbnails_only);
    assert!(!m.media_autoplay && n.media_autoplay);
}

#[test]
fn backoff_is_capped_exponential() {
    let p = Platform::MobileBrowser;
    assert_eq!(p.reconnect_backoff_ms(0), 1_000);
    assert_eq!(p.reconnect_backoff_ms(1), 2_000);
    assert_eq!(p.reconnect_backoff_ms(100), 30_000); // capped
}

#[test]
fn backoff_never_shrinks_and_never_passes_the_ceiling() {
    for p in [Platform::Native, Platform::DesktopBrowser, Platform::MobileBrowser] {
        let mut last = 0;
        for attempt in 0..40 {
            let ms = p.reconnect_backoff_ms(attempt);
            assert!(ms >= last && ms <= p.profile().reconnect_max_ms);
            last = ms;
        }
        assert_eq!(p.reconnect_backoff_ms(u32::MAX), p.profile().reconnect_max_ms);
    }
}
