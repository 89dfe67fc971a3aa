use waywallen::media::{first_video_dimensions, MediaMeta, MediaProbe, StreamParams, AVMEDIA_TYPE_VIDEO};

struct FixedProbe;

impl MediaProbe for FixedProbe {
    fn probe_media(&self, _path: &str) -> MediaMeta {
        MediaMeta { width: Some(1), height: None }
    }
}

#[test]
fn first_video_stream_supplies_positive_dimensions() {
    let audio = StreamParams { codec_type: 1, width: 0, height: 0 };
    let video = StreamParams { codec_type: AVMEDIA_TYPE_VIDEO, width: 1920, height: 0 };
    let later = StreamParams { codec_type: AVMEDIA_TYPE_VIDEO, width: 640, height: 480 };
    assert_eq!(
        first_video_dimensions(&[None, Some(audio), Some(video), Some(later)]),
        MediaMeta { width: Some(1920), height: None }
    );
    assert_eq!(first_video_dimensions(&[Some(audio)]), MediaMeta::default());
    assert_eq!(FixedProbe.probe_media("x").width, Some(1));
}
