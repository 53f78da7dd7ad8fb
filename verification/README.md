# agentplay

A runtime core that lets agents play non-realtime games through visual observations
and player-equivalent inputs: observe, decide, act, settle, observe.

`src/` is the verified library:

- `model`: frames, observations, keys, actions and decisions (a decision holds at
  least one action).
- `policy`: temporal and quiescence policies.
- `metric`: the block difference between two frames, in basis points, with its
  laws (identical frames score zero, the score is symmetric and at most 10 000).
- `quiescence`: the detector that decides, sample by sample, when the picture after
  a decision is stable or recurrent, or the wait has timed out.
- `keys`: macOS virtual key codes and key names.
- `actions`: the typed-line grammar of a decision (`right up`, `space*10`).
- `window`: choosing exactly one on-screen window.
- `input`: the key allowlist and hold time.
- `bridge`: the line protocol of the native capture and input helper.
- `image`: PNG screenshots to RGBA8 frames and frames to PNG images.
- `runner`: run limits and the runner's parts.
- `text`, `duration`: the std string and duration operations relied on.

`app/` is the command-line program around it: process I/O with the native helper,
files, JSON, the timed settle loop and the async agent loop.
